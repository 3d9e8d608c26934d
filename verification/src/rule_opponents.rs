//! The fixed opponents that a network's absolute strength is measured against.

use vstd::prelude::*;

use crate::text::{has_prefix, law_prefix_is_in_front, same_text, trimmed, without_prefix};

verus! {

broadcast use vstd::string::group_string_axioms;

/// An opponent that follows a rule. An opponent that plays at random is not one of these: see
/// [`EvalOpponent`].
#[derive(Clone, Copy, Debug, PartialEq, Eq, Structural)]
pub enum RuleOpponent {
    /// Takes a face-up piece where it can, else turns a piece over, else moves at random.
    CaptureFirst,
    /// Turns a piece over where it can, else plays any legal action at random.
    RevealFirst,
}

/// The opponent of that bare name.
pub open spec fn rule_named(name: Seq<char>) -> Option<RuleOpponent> {
    if name == "capture_first"@ {
        Some(RuleOpponent::CaptureFirst)
    } else if name == "reveal_first"@ {
        Some(RuleOpponent::RevealFirst)
    } else {
        None
    }
}

/// `s` without the prefix `rule:`, if it has it.
pub open spec fn bare_name(s: Seq<char>) -> Seq<char> {
    if has_prefix(s, "rule:"@) {
        s.skip("rule:"@.len() as int)
    } else {
        s
    }
}

/// The opponent that an identifier stands for: white space around it does not count, and neither
/// does one prefix `rule:`.
pub open spec fn rule_of(spec_text: Seq<char>) -> Option<RuleOpponent> {
    rule_named(bare_name(trimmed(spec_text)))
}

impl RuleOpponent {
    /// The identifier of the opponent in the form that reports use.
    pub open spec fn identifier(self) -> Seq<char> {
        match self {
            RuleOpponent::CaptureFirst => "rule:capture_first"@,
            RuleOpponent::RevealFirst => "rule:reveal_first"@,
        }
    }

    /// The opponent that an identifier stands for, or `None` for an unknown one.
    pub fn parse(spec_text: &str) -> (res: Option<Self>)
        ensures
            res == rule_of(spec_text@),
    {
        let s = spec_text.trim();
        let name = match without_prefix(s, "rule:") {
            Some(rest) => rest,
            None => s,
        };
        if same_text(name, "capture_first") {
            Some(RuleOpponent::CaptureFirst)
        } else if same_text(name, "reveal_first") {
            Some(RuleOpponent::RevealFirst)
        } else {
            None
        }
    }

    /// The identifier in the form that reports use.
    pub fn spec(self) -> (res: &'static str)
        ensures
            res@ == self.identifier(),
    {
        match self {
            RuleOpponent::CaptureFirst => "rule:capture_first",
            RuleOpponent::RevealFirst => "rule:reveal_first",
        }
    }

    /// The name to show.
    pub fn label(self) -> (res: &'static str)
        ensures
            res@ == match self {
                RuleOpponent::CaptureFirst => "优先吃子"@,
                RuleOpponent::RevealFirst => "优先翻棋"@,
            },
    {
        match self {
            RuleOpponent::CaptureFirst => "优先吃子",
            RuleOpponent::RevealFirst => "优先翻棋",
        }
    }
}

/// A text that neither begins nor ends with white space is its own trimmed form.
pub proof fn lemma_trimmed_fixed(s: Seq<char>)
    requires
        s.len() > 0,
        !crate::text::is_white_space(s[0]),
        !crate::text::is_white_space(s.last()),
    ensures
        trimmed(s) == s,
{
}

/// Parsing the identifier that an opponent reports gives back that opponent.
pub proof fn law_parse_inverts_spec(k: RuleOpponent)
    ensures
        rule_of(k.identifier()) == Some(k),
{
    reveal_strlit("rule:");
    reveal_strlit("capture_first");
    reveal_strlit("reveal_first");
    reveal_strlit("rule:capture_first");
    reveal_strlit("rule:reveal_first");
    lemma_trimmed_fixed(k.identifier());
    assert(k.identifier().take(5) =~= "rule:"@);
    if k is CaptureFirst {
        assert(k.identifier().skip(5) =~= "capture_first"@);
    } else {
        assert(k.identifier().skip(5) =~= "reveal_first"@);
        assert("reveal_first"@ != "capture_first"@) by {
            assert("reveal_first"@.len() != "capture_first"@.len());
        }
    }
}

/// An opponent that needs no network.
#[derive(Clone, Copy, Debug, PartialEq, Eq, Structural)]
pub enum EvalOpponent {
    /// Plays any legal action at random.
    Random,
    Rule { rule: RuleOpponent },
}

/// The opponent that an identifier stands for.
pub open spec fn opponent_of(spec_text: Seq<char>) -> Option<EvalOpponent> {
    if trimmed(spec_text) == "random"@ {
        Some(EvalOpponent::Random)
    } else {
        match rule_of(spec_text) {
            Some(rule) => Some(EvalOpponent::Rule { rule }),
            None => None,
        }
    }
}

impl EvalOpponent {
    /// The identifier of the opponent in the form that reports use.
    pub open spec fn identifier(self) -> Seq<char> {
        match self {
            EvalOpponent::Random => "random"@,
            EvalOpponent::Rule { rule } => rule.identifier(),
        }
    }

    /// The opponent that an identifier stands for, or `None` for an unknown one.
    pub fn parse(spec_text: &str) -> (res: Option<Self>)
        ensures
            res == opponent_of(spec_text@),
    {
        if same_text(spec_text.trim(), "random") {
            Some(EvalOpponent::Random)
        } else {
            match RuleOpponent::parse(spec_text) {
                Some(rule) => Some(EvalOpponent::Rule { rule }),
                None => None,
            }
        }
    }

    /// The identifier in the form that reports use.
    pub fn spec(self) -> (res: &'static str)
        ensures
            res@ == self.identifier(),
    {
        match self {
            EvalOpponent::Random => "random",
            EvalOpponent::Rule { rule } => rule.spec(),
        }
    }
}

/// The opponents that a network is measured against by default, from the weakest to the strongest.
pub fn default_eval_opponents() -> (res: Vec<EvalOpponent>)
    ensures
        res@ == seq![
            EvalOpponent::Random,
            EvalOpponent::Rule { rule: RuleOpponent::RevealFirst },
            EvalOpponent::Rule { rule: RuleOpponent::CaptureFirst },
        ],
{
    let mut out: Vec<EvalOpponent> = Vec::new();
    out.push(EvalOpponent::Random);
    out.push(EvalOpponent::Rule { rule: RuleOpponent::RevealFirst });
    out.push(EvalOpponent::Rule { rule: RuleOpponent::CaptureFirst });
    assert(out@ =~= seq![
        EvalOpponent::Random,
        EvalOpponent::Rule { rule: RuleOpponent::RevealFirst },
        EvalOpponent::Rule { rule: RuleOpponent::CaptureFirst },
    ]);
    out
}

/// Parsing the identifier that any opponent reports gives back that opponent.
pub proof fn law_opponent_parse_inverts_spec(k: EvalOpponent)
    ensures
        opponent_of(k.identifier()) == Some(k),
{
    reveal_strlit("random");
    reveal_strlit("rule:capture_first");
    reveal_strlit("rule:reveal_first");
    lemma_trimmed_fixed(k.identifier());
    match k {
        EvalOpponent::Random => {},
        EvalOpponent::Rule { rule } => {
            law_parse_inverts_spec(rule);
            assert(k.identifier().len() != "random"@.len());
        },
    }
}

/// An identifier stands for an opponent exactly where, without white space around it, it is the name
/// of the opponent, with or without one `rule:` in front; `random` is known without it only.
pub proof fn law_opponents_have_two_names(s: Seq<char>)
    ensures
        rule_of(s) == Some(RuleOpponent::CaptureFirst) <==> trimmed(s) == "capture_first"@
            || trimmed(s) == "rule:capture_first"@,
        rule_of(s) == Some(RuleOpponent::RevealFirst) <==> trimmed(s) == "reveal_first"@ || trimmed(
            s,
        ) == "rule:reveal_first"@,
        opponent_of(s) == Some(EvalOpponent::Random) <==> trimmed(s) == "random"@,
        opponent_of(s) matches Some(EvalOpponent::Rule { rule }) ==> rule_of(s) == Some(rule),
        opponent_of(s) is None <==> trimmed(s) != "random"@ && rule_of(s) is None,
        rule_of(s) is Some ==> opponent_of(s) == Some(
            EvalOpponent::Rule { rule: rule_of(s)->Some_0 },
        ),
{
    reveal_strlit("rule:");
    reveal_strlit("capture_first");
    reveal_strlit("reveal_first");
    reveal_strlit("rule:capture_first");
    reveal_strlit("rule:reveal_first");
    reveal_strlit("random");
    let t = trimmed(s);
    let prefix = "rule:"@;
    assert("rule:capture_first"@ =~= prefix + "capture_first"@);
    assert("rule:reveal_first"@ =~= prefix + "reveal_first"@);
    law_prefix_is_in_front(t, prefix, "capture_first"@);
    law_prefix_is_in_front(t, prefix, "reveal_first"@);
    assert(prefix[0] == 'r' && prefix[1] == 'u' && prefix[4] == ':');
    assert("capture_first"@[0] == 'c');
    assert("reveal_first"@[1] == 'e');
    assert("random"@[1] == 'a');
    if has_prefix(t, prefix) {
        assert(t[0] == t.take(5)[0] && t[1] == t.take(5)[1]);
        assert(t[1] == 'u');
    }
}

/// Reports name an opponent that follows a rule with `rule:` in front, and the random one without.
pub proof fn law_reports_name_the_rule(k: RuleOpponent)
    ensures
        has_prefix(k.identifier(), "rule:"@),
        k is CaptureFirst ==> k.identifier() == "rule:capture_first"@,
        k is RevealFirst ==> k.identifier() == "rule:reveal_first"@,
        (EvalOpponent::Rule { rule: k }).identifier() == k.identifier(),
        EvalOpponent::Random.identifier() == "random"@,
{
    reveal_strlit("rule:");
    reveal_strlit("rule:capture_first");
    reveal_strlit("rule:reveal_first");
    assert(k.identifier().take(5) =~= "rule:"@);
}

} // verus!
