use banqi_collector::rule_opponents::RuleOpponent;

#[test]
fn parse_accepts_prefixed_and_bare_specs() {
    assert_eq!(
        RuleOpponent::parse("rule:capture_first"),
        Some(RuleOpponent::CaptureFirst)
    );
    assert_eq!(
        RuleOpponent::parse(" capture_first "),
        Some(RuleOpponent::CaptureFirst)
    );
    assert_eq!(
        RuleOpponent::parse("reveal_first"),
        Some(RuleOpponent::RevealFirst)
    );
    assert_eq!(RuleOpponent::parse("random"), None);
    assert_eq!(RuleOpponent::parse("best"), None);
    for k in [RuleOpponent::CaptureFirst, RuleOpponent::RevealFirst] {
        assert_eq!(RuleOpponent::parse(k.spec()), Some(k));
    }
}
