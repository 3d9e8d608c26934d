//! Paths as Unix has them: texts with `/` between their parts. The keys of networks are such texts,
//! too, whatever the machine.

use vstd::prelude::*;

use crate::text::{
    chars_of, cut, decimal, from_decimal, is_digit, law_decimal_reads_back, push_decimal, text_of,
};

verus! {

broadcast use vstd::string::group_string_axioms;

/// `key` below `dir`. An absolute key stands for itself.
pub open spec fn joined(dir: Seq<char>, key: Seq<char>) -> Seq<char> {
    if key.len() > 0 && key[0] == '/' {
        key
    } else if dir.len() == 0 || dir.last() == '/' {
        dir + key
    } else {
        dir.push('/') + key
    }
}

/// Where the network of key `key` is kept: below the cache directory, under its key.
pub fn network_path(cache_dir: &str, key: &str) -> (res: String)
    ensures
        res@ == joined(cache_dir@, key@),
{
    let n: usize = cache_dir.unicode_len();
    let m: usize = key.unicode_len();
    if m > 0 && key.get_char(0) == '/' {
        return key.to_string();
    }
    let mut out = cache_dir.to_string();
    if n > 0 && cache_dir.get_char(n - 1) != '/' {
        out.push('/');
    }
    out.append(key);
    assert(out@ =~= joined(cache_dir@, key@));
    out
}

/// The place behind the last `/` among the first `end` characters, or 0.
pub open spec fn part_start(path: Seq<char>, end: int) -> int
    decreases end,
{
    if end <= 0 {
        0
    } else if path[end - 1] == '/' {
        end
    } else {
        part_start(path, end - 1)
    }
}

/// Where the file name of the first `end` characters of a path begins and ends. Empty parts and
/// parts `.` do not count; a path that ends in `..` has no file name.
pub open spec fn name_span(path: Seq<char>, end: int) -> Option<(int, int)>
    decreases end,
    via name_span_decreases
{
    if end <= 0 {
        None
    } else {
        let start = part_start(path, end);
        let part = path.subrange(start, end);
        if part.len() == 0 || part == seq!['.'] {
            if start <= 0 {
                None
            } else {
                name_span(path, start - 1)
            }
        } else if part == seq!['.', '.'] {
            None
        } else {
            Some((start, end))
        }
    }
}

#[via_fn]
proof fn name_span_decreases(path: Seq<char>, end: int) {
    lemma_part_start_bound(path, end);
}

proof fn lemma_part_start_bound(path: Seq<char>, end: int)
    ensures
        end >= 0 ==> 0 <= part_start(path, end) <= end,
    decreases end,
{
    if end > 0 {
        lemma_part_start_bound(path, end - 1);
    }
}

/// The place of the last `.` in a file name, behind its first character; `None` where there is none.
pub open spec fn dot_in(path: Seq<char>, start: int, end: int) -> Option<int>
    decreases end - start,
{
    if end <= start + 1 {
        None
    } else if path[end - 1] == '.' {
        Some(end - 1)
    } else {
        dot_in(path, start, end - 1)
    }
}

/// The extension of a path: what follows the last `.` of its file name, unless the name begins with
/// that `.`.
pub open spec fn extension_of(path: Seq<char>) -> Option<Seq<char>> {
    match name_span(path, path.len() as int) {
        Some((start, end)) => match dot_in(path, start, end) {
            Some(dot) => Some(path.subrange(dot + 1, end)),
            None => None,
        },
        None => None,
    }
}

/// Where the file name without its extension ends.
pub open spec fn stem_end(path: Seq<char>, start: int, end: int) -> int {
    match dot_in(path, start, end) {
        Some(dot) => dot,
        None => end,
    }
}

/// `path` with another extension; a path without a file name stays as it is.
pub open spec fn with_extension(path: Seq<char>, extension: Seq<char>) -> Seq<char> {
    match name_span(path, path.len() as int) {
        Some((start, end)) => path.take(stem_end(path, start, end)).push('.') + extension,
        None => path,
    }
}

fn start_of_part(path: &Vec<char>, end: usize) -> (res: usize)
    requires
        end <= path@.len(),
    ensures
        res == part_start(path@, end as int),
        res <= end,
{
    let mut i: usize = end;
    while i > 0 && path[i - 1] != '/'
        invariant
            i <= end <= path@.len(),
            part_start(path@, end as int) == part_start(path@, i as int),
        decreases i,
    {
        i -= 1;
    }
    i
}

/// The file name of a path, as the places where it begins and ends.
fn span_of_name(path: &Vec<char>) -> (res: Option<(usize, usize)>)
    ensures
        match res {
            Some((start, end)) => start < end <= path@.len() && name_span(
                path@,
                path@.len() as int,
            ) == Some((start as int, end as int)),
            None => name_span(path@, path@.len() as int) is None,
        },
{
    let total: usize = path.len();
    let mut end: usize = total;
    while end > 0
        invariant
            end <= total,
            total == path@.len(),
            name_span(path@, total as int) == name_span(path@, end as int),
        decreases end,
    {
        let start: usize = start_of_part(path, end);
        let ghost part = path@.subrange(start as int, end as int);
        let len: usize = end - start;
        if len == 0 || (len == 1 && path[start] == '.') {
            assert(part.len() == 0 || part =~= seq!['.']);
            if start == 0 {
                return None;
            }
            end = start - 1;
        } else if len == 2 && path[start] == '.' && path[start + 1] == '.' {
            assert(part =~= seq!['.', '.']);
            return None;
        } else {
            proof {
                if part == seq!['.'] {
                    assert(part[0] == '.');
                    assert(false);
                }
                if part == seq!['.', '.'] {
                    assert(part[0] == '.' && part[1] == '.');
                    assert(false);
                }
            }
            return Some((start, end));
        }
    }
    None
}

fn last_dot(path: &Vec<char>, start: usize, end: usize) -> (res: Option<usize>)
    requires
        start < end <= path@.len(),
    ensures
        match res {
            Some(dot) => start < dot < end && dot_in(path@, start as int, end as int) == Some(
                dot as int,
            ),
            None => dot_in(path@, start as int, end as int) is None,
        },
{
    let mut i: usize = end;
    while i > start + 1
        invariant
            start < i <= end <= path@.len(),
            dot_in(path@, start as int, end as int) == dot_in(path@, start as int, i as int),
        decreases i,
    {
        if path[i - 1] == '.' {
            return Some(i - 1);
        }
        i -= 1;
    }
    None
}

/// The extension of a path.
pub fn extension(path: &str) -> (res: Option<String>)
    ensures
        match extension_of(path@) {
            Some(ext) => res is Some && res->Some_0@ == ext,
            None => res is None,
        },
{
    let chars = chars_of(path);
    match span_of_name(&chars) {
        Some((start, end)) => match last_dot(&chars, start, end) {
            Some(dot) => {
                let ext = cut(&chars, dot + 1, end);
                Some(text_of(&ext))
            },
            None => None,
        },
        None => None,
    }
}

/// The extension of a temporary file of process `pid`, the `seq`-th that the process writes.
pub open spec fn temp_extension(pid: u32, seq: u64) -> Seq<char> {
    decimal(pid as int).push('.') + decimal(seq as int) + ".tmp"@
}

/// The file that a download is written to before it takes its place at `to`.
pub fn temp_path(to: &str, pid: u32, seq: u64) -> (res: String)
    ensures
        res@ == with_extension(to@, temp_extension(pid, seq)),
{
    let chars = chars_of(to);
    match span_of_name(&chars) {
        Some((start, end)) => {
            let stem: usize = match last_dot(&chars, start, end) {
                Some(dot) => dot,
                None => end,
            };
            let head = cut(&chars, 0, stem);
            assert(head@ =~= to@.take(stem as int));
            let mut out = text_of(&head);
            out.push('.');
            push_decimal(&mut out, pid as u64);
            out.push('.');
            push_decimal(&mut out, seq);
            out.append(".tmp");
            assert(out@ =~= with_extension(to@, temp_extension(pid, seq)));
            out
        },
        None => to.to_string(),
    }
}

proof fn lemma_digits_before_dot(a: Seq<char>, b: Seq<char>, x: Seq<char>, y: Seq<char>)
    requires
        a.push('.') + x == b.push('.') + y,
        forall|i: int| 0 <= i < a.len() ==> is_digit(#[trigger] a[i]),
        forall|i: int| 0 <= i < b.len() ==> is_digit(#[trigger] b[i]),
    ensures
        a == b,
        x == y,
{
    let l = a.push('.') + x;
    let r = b.push('.') + y;
    if a.len() < b.len() {
        assert(l[a.len() as int] == '.');
        assert(r[a.len() as int] == b[a.len() as int]);
        assert(is_digit(b[a.len() as int]));
    }
    if b.len() < a.len() {
        assert(r[b.len() as int] == '.');
        assert(l[b.len() as int] == a[b.len() as int]);
        assert(is_digit(a[b.len() as int]));
    }
    assert forall|i: int| 0 <= i < a.len() implies a[i] == b[i] by {
        assert(l[i] == r[i]);
    }
    assert(a =~= b);
    assert(x =~= l.skip(a.len() as int + 1));
    assert(y =~= r.skip(b.len() as int + 1));
}

/// Two downloads never share a temporary file: other processes and other sequence numbers give other
/// names.
pub proof fn law_temp_names_differ(to: Seq<char>, pid1: u32, seq1: u64, pid2: u32, seq2: u64)
    requires
        name_span(to, to.len() as int) is Some,
        pid1 != pid2 || seq1 != seq2,
    ensures
        with_extension(to, temp_extension(pid1, seq1)) != with_extension(
            to,
            temp_extension(pid2, seq2),
        ),
{
    let (start, end) = name_span(to, to.len() as int)->Some_0;
    let head = to.take(stem_end(to, start, end)).push('.');
    let a = temp_extension(pid1, seq1);
    let b = temp_extension(pid2, seq2);
    if head + a == head + b {
        assert(a =~= (head + a).skip(head.len() as int));
        assert(b =~= (head + b).skip(head.len() as int));
        law_decimal_reads_back(pid1 as int);
        law_decimal_reads_back(pid2 as int);
        law_decimal_reads_back(seq1 as int);
        law_decimal_reads_back(seq2 as int);
        let x = decimal(seq1 as int) + ".tmp"@;
        let y = decimal(seq2 as int) + ".tmp"@;
        assert(a =~= decimal(pid1 as int).push('.') + x);
        assert(b =~= decimal(pid2 as int).push('.') + y);
        lemma_digits_before_dot(decimal(pid1 as int), decimal(pid2 as int), x, y);
        reveal_strlit(".tmp");
        reveal_strlit("tmp");
        assert(x =~= decimal(seq1 as int).push('.') + "tmp"@);
        assert(y =~= decimal(seq2 as int).push('.') + "tmp"@);
        lemma_digits_before_dot(decimal(seq1 as int), decimal(seq2 as int), "tmp"@, "tmp"@);
        assert(pid1 == pid2 && seq1 == seq2);
    }
}

/// A path below a directory begins with the directory and ends with the key, with one `/` between
/// them, which is the directory's own where it ends with one; an absolute key is its own path.
pub proof fn law_path_is_below_its_directory(dir: Seq<char>, key: Seq<char>)
    ensures
        ({
            let path = joined(dir, key);
            let gap = path.len() - dir.len() - key.len();
            if key.len() > 0 && key[0] == '/' {
                path == key
            } else {
                &&& path.len() >= dir.len() + key.len()
                &&& path.take(dir.len() as int) == dir
                &&& path.skip(path.len() - key.len()) == key
                &&& gap == 0 || gap == 1
                &&& gap == 1 <==> dir.len() > 0 && dir.last() != '/'
                &&& gap == 1 ==> path[dir.len() as int] == '/'
            }
        }),
{
    let path = joined(dir, key);
    if !(key.len() > 0 && key[0] == '/') {
        assert(path.take(dir.len() as int) =~= dir);
        assert(path.skip(path.len() - key.len()) =~= key);
    }
}

proof fn lemma_part_start_at(path: Seq<char>, start: int, end: int)
    requires
        0 <= start <= end <= path.len(),
        start == 0 || path[start - 1] == '/',
        forall|i: int| start <= i < end ==> #[trigger] path[i] != '/',
    ensures
        part_start(path, end) == start,
    decreases end,
{
    if start < end {
        assert(path[end - 1] != '/');
        lemma_part_start_at(path, start, end - 1);
    }
}

/// The file name of a path is what stands behind its last `/`, unless that is nothing, `.` or `..`.
pub proof fn law_file_name_is_the_last_part(dir: Seq<char>, name: Seq<char>)
    requires
        dir.len() == 0 || dir.last() == '/',
        name.len() > 0,
        name != seq!['.'],
        name != seq!['.', '.'],
        forall|i: int| 0 <= i < name.len() ==> #[trigger] name[i] != '/',
    ensures
        name_span(dir + name, (dir + name).len() as int) == Some(
            (dir.len() as int, (dir + name).len() as int),
        ),
{
    let path = dir + name;
    let start = dir.len() as int;
    let end = path.len() as int;
    assert forall|i: int| start <= i < end implies #[trigger] path[i] != '/' by {
        assert(path[i] == name[i - start]);
    }
    lemma_part_start_at(path, start, end);
    assert(path.subrange(start, end) =~= name);
}

proof fn lemma_part_start_prefix(a: Seq<char>, b: Seq<char>, end: int)
    requires
        end <= a.len(),
        end <= b.len(),
        forall|i: int| 0 <= i < end ==> a[i] == b[i],
    ensures
        part_start(a, end) == part_start(b, end),
    decreases end,
{
    if end > 0 {
        lemma_part_start_prefix(a, b, end - 1);
    }
}

proof fn lemma_name_span_prefix(a: Seq<char>, b: Seq<char>, end: int)
    requires
        end <= a.len(),
        end <= b.len(),
        forall|i: int| 0 <= i < end ==> a[i] == b[i],
    ensures
        name_span(a, end) == name_span(b, end),
    decreases end,
{
    if end > 0 {
        lemma_part_start_prefix(a, b, end);
        lemma_part_start_bound(a, end);
        let start = part_start(a, end);
        assert(a.subrange(start, end) =~= b.subrange(start, end));
        if start > 0 {
            lemma_name_span_prefix(a, b, start - 1);
        }
    }
}

/// A part `.` at the end of a path does not count.
pub proof fn law_dot_at_the_end_does_not_count(path: Seq<char>)
    ensures
        name_span(path + seq!['/', '.'], path.len() as int + 2) == name_span(
            path,
            path.len() as int,
        ),
{
    let n = path.len() as int;
    let dotted = path + seq!['/', '.'];
    lemma_part_start_at(dotted, n + 1, n + 2);
    assert(dotted.subrange(n + 1, n + 2) =~= seq!['.']);
    lemma_name_span_prefix(dotted, path, n);
}

/// A `/` at the end of a path does not count; a path that ends in a part `..` has no file name.
pub proof fn law_ends_without_a_name(path: Seq<char>)
    ensures
        name_span(path.push('/'), path.len() as int + 1) == name_span(path, path.len() as int),
        path.len() == 0 || path.last() == '/' ==> name_span(
            path + seq!['.', '.'],
            path.len() as int + 2,
        ) is None,
{
    let n = path.len() as int;
    let slashed = path.push('/');
    assert(part_start(slashed, n + 1) == n + 1);
    assert(slashed.subrange(n + 1, n + 1).len() == 0);
    lemma_name_span_prefix(slashed, path, n);
    if n == 0 || path.last() == '/' {
        let up = path + seq!['.', '.'];
        lemma_part_start_at(up, n, n + 2);
        assert(up.subrange(n, n + 2) =~= seq!['.', '.']);
        assert(up.subrange(n, n + 2) != seq!['.']) by {
            assert(up.subrange(n, n + 2).len() == 2);
        }
    }
}

proof fn lemma_dot_at(path: Seq<char>, start: int, dot: int, end: int)
    requires
        0 <= start < dot < end <= path.len(),
        path[dot] == '.',
        forall|i: int| dot < i < end ==> #[trigger] path[i] != '.',
    ensures
        dot_in(path, start, end) == Some(dot),
    decreases end,
{
    if dot < end - 1 {
        assert(path[end - 1] != '.');
        lemma_dot_at(path, start, dot, end - 1);
    }
}

proof fn lemma_no_dot(path: Seq<char>, start: int, end: int)
    requires
        0 <= start <= end <= path.len(),
        forall|i: int| start < i < end ==> #[trigger] path[i] != '.',
    ensures
        dot_in(path, start, end) is None,
    decreases end - start,
{
    if end > start + 1 {
        assert(path[end - 1] != '.');
        lemma_no_dot(path, start, end - 1);
    }
}

/// The extension of a file is what stands behind the last `.` of its name; another extension takes
/// its place and leaves everything in front of it as it was.
pub proof fn law_extension_is_behind_the_last_dot(
    dir: Seq<char>,
    stem: Seq<char>,
    ext: Seq<char>,
    other: Seq<char>,
)
    requires
        dir.len() == 0 || dir.last() == '/',
        stem.len() > 0,
        stem + seq!['.'] + ext != seq!['.', '.'],
        forall|i: int| 0 <= i < stem.len() ==> #[trigger] stem[i] != '/',
        forall|i: int| 0 <= i < ext.len() ==> #[trigger] ext[i] != '/' && ext[i] != '.',
    ensures
        extension_of(dir + (stem + seq!['.'] + ext)) == Some(ext),
        with_extension(dir + (stem + seq!['.'] + ext), other) == dir + stem + seq!['.'] + other,
{
    let name = stem + seq!['.'] + ext;
    let path = dir + name;
    let start = dir.len() as int;
    let end = path.len() as int;
    let dot = (dir.len() + stem.len()) as int;
    assert forall|i: int| 0 <= i < name.len() implies #[trigger] name[i] != '/' by {
        if i < stem.len() {
            assert(name[i] == stem[i]);
        } else if i > stem.len() {
            assert(name[i] == ext[i - stem.len() - 1]);
        }
    }
    assert(name.len() >= 2);
    assert(name != seq!['.']) by {
        assert(seq!['.'].len() == 1);
    }
    law_file_name_is_the_last_part(dir, name);
    assert(path[dot] == name[stem.len() as int]);
    assert forall|i: int| dot < i < end implies #[trigger] path[i] != '.' by {
        assert(path[i] == ext[i - dot - 1]);
    }
    lemma_dot_at(path, start, dot, end);
    assert(path.subrange(dot + 1, end) =~= ext);
    assert(path.take(dot) =~= dir + stem);
    assert(with_extension(path, other) =~= dir + stem + seq!['.'] + other);
}

/// A file whose name has no `.` behind its first character has no extension, and another extension
/// goes behind its name.
pub proof fn law_names_without_an_extension(dir: Seq<char>, name: Seq<char>, other: Seq<char>)
    requires
        dir.len() == 0 || dir.last() == '/',
        name.len() > 0,
        name != seq!['.'],
        forall|i: int| 0 <= i < name.len() ==> #[trigger] name[i] != '/',
        forall|i: int| 0 < i < name.len() ==> #[trigger] name[i] != '.',
    ensures
        extension_of(dir + name) is None,
        with_extension(dir + name, other) == dir + name + seq!['.'] + other,
{
    let path = dir + name;
    let start = dir.len() as int;
    let end = path.len() as int;
    assert(name != seq!['.', '.']) by {
        if name == seq!['.', '.'] {
            assert(name[1] == '.');
        }
    }
    law_file_name_is_the_last_part(dir, name);
    assert forall|i: int| start < i < end implies #[trigger] path[i] != '.' by {
        assert(path[i] == name[i - start]);
    }
    lemma_no_dot(path, start, end);
    assert(path.take(end) =~= path);
    assert(with_extension(path, other) =~= path + seq!['.'] + other);
}

/// The name of a temporary file tells its process and its number, and that it is temporary.
pub proof fn law_temp_names_tell_their_origin(pid: u32, seq: u64)
    ensures
        ({
            let ext = temp_extension(pid, seq);
            exists|at: int|
                #![trigger ext[at]]
                0 < at && at + 5 < ext.len() && ext[at] == '.' && from_decimal(ext.take(at)) == pid
                    && from_decimal(ext.subrange(at + 1, ext.len() - 4)) == seq && ext.skip(
                    ext.len() - 4,
                ) == ".tmp"@
        }),
{
    let ext = temp_extension(pid, seq);
    let a = decimal(pid as int);
    let b = decimal(seq as int);
    let at = a.len() as int;
    reveal_strlit(".tmp");
    law_decimal_reads_back(pid as int);
    law_decimal_reads_back(seq as int);
    assert(ext.take(at) =~= a);
    assert(ext[at] == '.');
    assert(ext.subrange(at + 1, ext.len() - 4) =~= b);
    assert(ext.skip(ext.len() - 4) =~= ".tmp"@);
}

} // verus!
