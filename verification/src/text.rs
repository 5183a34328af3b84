//! Text as sequences of characters: the cuts, joins and renderings the host's
//! labels, paths and messages are made of.

use vstd::prelude::*;

verus! {

/// The part of `s` before the first `c` and the part after it, if `s` has a `c`.
pub open spec fn cut(s: Seq<char>, c: char) -> Option<(Seq<char>, Seq<char>)> {
    match s.index_of_first(c) {
        Some(i) => Some((s.take(i), s.skip(i + 1))),
        None => None,
    }
}

/// What follows `prefix` in `s`, if `s` begins with `prefix`.
pub open spec fn after_prefix(s: Seq<char>, prefix: Seq<char>) -> Option<Seq<char>> {
    if prefix.is_prefix_of(s) {
        Some(s.skip(prefix.len() as int))
    } else {
        None
    }
}

/// Whether `run` occurs in `s` as a contiguous block.
pub open spec fn has_run(s: Seq<char>, run: Seq<char>) -> bool {
    exists|i: int| #[trigger] run_at(s, run, i)
}

/// Whether `run` occurs in `s` at position `i`.
pub open spec fn run_at(s: Seq<char>, run: Seq<char>, i: int) -> bool {
    &&& 0 <= i
    &&& i + run.len() <= s.len()
    &&& s.subrange(i, i + run.len()) == run
}

/// The segments of `s` between its separators `c`: one more than there are separators.
pub open spec fn segments(s: Seq<char>, c: char) -> Seq<Seq<char>>
    decreases s.len(),
{
    if s.len() == 0 {
        seq![s]
    } else if s.last() == c {
        segments(s.drop_last(), c).push(Seq::empty())
    } else {
        let rest = segments(s.drop_last(), c);
        rest.update(rest.len() - 1, rest.last().push(s.last()))
    }
}

/// `parts` laid end to end with `c` between neighbours.
pub open spec fn joined(parts: Seq<Seq<char>>, c: char) -> Seq<char>
    decreases parts.len(),
{
    if parts.len() == 0 {
        Seq::empty()
    } else if parts.len() == 1 {
        parts[0]
    } else {
        joined(parts.drop_last(), c).push(c) + parts.last()
    }
}

/// `s` without the `c`s it ends in.
pub open spec fn without_trailing(s: Seq<char>, c: char) -> Seq<char>
    decreases s.len(),
{
    if s.len() > 0 && s.last() == c {
        without_trailing(s.drop_last(), c)
    } else {
        s
    }
}

/// The digit character of `d`, for `d` below ten.
pub open spec fn digit(d: int) -> char {
    ('0' as u32 + d) as char
}

/// The decimal digits of `n`, without leading zeros.
pub open spec fn decimal_nat(n: nat) -> Seq<char>
    decreases n,
{
    if n < 10 {
        seq![digit(n as int)]
    } else {
        decimal_nat(n / 10).push(digit((n % 10) as int))
    }
}

/// `n` in decimal, with a leading minus sign when negative.
pub open spec fn decimal(n: int) -> Seq<char> {
    if n < 0 {
        seq!['-'] + decimal_nat((-n) as nat)
    } else {
        decimal_nat(n as nat)
    }
}

/// Each string by its characters.
pub open spec fn texts(v: Seq<String>) -> Seq<Seq<char>> {
    v.map_values(|s: String| s@)
}

/// The characters of an optional string slice.
pub open spec fn str_opt(s: Option<&str>) -> Option<Seq<char>> {
    match s {
        Some(t) => Some(t@),
        None => None,
    }
}

/// The characters of an optional string.
pub open spec fn text_opt(s: Option<String>) -> Option<Seq<char>> {
    match s {
        Some(t) => Some(t@),
        None => None,
    }
}

/// A cut at `c` is the one way to write the text as two parts around a `c`,
/// the first part holding none.
pub proof fn lemma_cut(s: Seq<char>, c: char, a: Seq<char>, b: Seq<char>)
    ensures
        cut(s, c) == Some((a, b)) <==> s == a.push(c) + b && !a.contains(c),
{
    s.index_of_first_ensures(c);
    if cut(s, c) == Some((a, b)) {
        let i = s.index_of_first(c)->0;
        assert(s =~= a.push(c) + b);
        if a.contains(c) {
            let j = choose|j: int| 0 <= j < a.len() && a[j] == c;
            assert(s[j] == c);
        }
    }
    if s == a.push(c) + b && !a.contains(c) {
        assert(s[a.len() as int] == c);
        assert(s.contains(c));
        let i = s.index_of_first(c)->0;
        if i < a.len() {
            assert(a[i] == s[i]);
            assert(a.contains(c));
        } else if a.len() < i {
            assert(s[a.len() as int] != c);
        }
        assert(i == a.len());
        assert(s.take(i) =~= a);
        assert(s.skip(i + 1) =~= b);
    }
}

/// Joining the segments of a text gives the text back, and no segment holds a separator.
pub proof fn lemma_segments(s: Seq<char>, c: char)
    ensures
        segments(s, c).len() > 0,
        joined(segments(s, c), c) == s,
        forall|i: int, j: int|
            0 <= i < segments(s, c).len() && 0 <= j < segments(s, c)[i].len() ==> #[trigger] segments(
                s,
                c,
            )[i][j] != c,
    decreases s.len(),
{
    if s.len() > 0 {
        let init = s.drop_last();
        lemma_segments(init, c);
        let rest = segments(init, c);
        let all = segments(s, c);
        assert(s =~= init.push(s.last()));
        if s.last() == c {
            assert(all.drop_last() =~= rest);
            assert(joined(all, c) =~= init.push(c));
        } else {
            assert(all.drop_last() =~= rest.drop_last());
            assert(joined(all, c) =~= joined(rest, c).push(s.last()));
        }
    }
}

/// The characters of `s`, in order.
pub(crate) fn chars_of(s: &str) -> (v: Vec<char>)
    ensures
        v@ == s@,
{
    let mut v: Vec<char> = Vec::new();
    for c in it: s.chars()
        invariant
            v@ == it.seq().take(it.index() as int),
            it.seq() == s@,
    {
        v.push(c);
    }
    v
}

/// Whether `a` and `b` hold the same characters.
pub(crate) fn same_text(a: &str, b: &str) -> (r: bool)
    ensures
        r == (a@ == b@),
{
    let x = chars_of(a);
    let y = chars_of(b);
    if x.len() != y.len() {
        return false;
    }
    let mut i: usize = 0;
    while i < x.len()
        invariant
            i <= x.len(),
            x.len() == y.len(),
            x@ == a@,
            y@ == b@,
            forall|j: int| 0 <= j < i ==> x[j] == y[j],
        decreases x.len() - i,
    {
        if x[i] != y[i] {
            return false;
        }
        i += 1;
    }
    assert(a@ =~= b@);
    true
}

/// Copies a list of strings.
pub(crate) fn copy_texts(v: &Vec<String>) -> (r: Vec<String>)
    ensures
        texts(r@) == texts(v@),
{
    let mut r: Vec<String> = Vec::new();
    let mut i: usize = 0;
    while i < v.len()
        invariant
            i <= v.len(),
            r.len() == i,
            forall|j: int| 0 <= j < i ==> r[j]@ == v[j]@,
        decreases v.len() - i,
    {
        r.push(v[i].clone());
        i += 1;
    }
    assert(texts(r@) =~= texts(v@));
    r
}

/// The position of the first `c` in `s`.
pub(crate) fn find_first(s: &str, c: char) -> (r: Option<usize>)
    ensures
        match r {
            Some(i) => s@.index_of_first(c) == Some(i as int) && i < s@.len(),
            None => s@.index_of_first(c) is None,
        },
{
    let v = chars_of(s);
    proof {
        s@.index_of_first_ensures(c);
    }
    let mut i: usize = 0;
    while i < v.len()
        invariant
            i <= v.len(),
            v@ == s@,
            forall|j: int| 0 <= j < i ==> s@[j] != c,
        decreases v.len() - i,
    {
        if v[i] == c {
            proof {
                s@.index_of_first_ensures(c);
                assert(s@.contains(c)) by {
                    assert(s@[i as int] == c);
                }
                let k = s@.index_of_first(c)->0;
                if k < i {
                    assert(s@[k] != c);
                } else if i < k {
                    assert(s@[i as int] != c);
                }
            }
            return Some(i);
        }
        i += 1;
    }
    None
}

/// The position of the last `c` in `s`.
pub(crate) fn find_last(s: &str, c: char) -> (r: Option<usize>)
    ensures
        match r {
            Some(i) => s@.index_of_last(c) == Some(i as int) && i < s@.len(),
            None => s@.index_of_last(c) is None,
        },
{
    let v = chars_of(s);
    proof {
        s@.index_of_last_ensures(c);
    }
    let mut i: usize = v.len();
    while i > 0
        invariant
            i <= v.len(),
            v@ == s@,
            forall|j: int| i <= j < v.len() ==> s@[j] != c,
        decreases i,
    {
        i -= 1;
        if v[i] == c {
            proof {
                s@.index_of_last_ensures(c);
                assert(s@.contains(c)) by {
                    assert(s@[i as int] == c);
                }
                let k = s@.index_of_last(c)->0;
                if k < i {
                    assert(s@[i as int] != c);
                } else if i < k {
                    assert(s@[k] != c);
                }
            }
            return Some(i);
        }
    }
    None
}

/// Cuts `s` at its first `c`.
pub(crate) fn split_once<'a>(s: &'a str, c: char) -> (r: Option<(&'a str, &'a str)>)
    ensures
        match r {
            Some((a, b)) => cut(s@, c) == Some((a@, b@)),
            None => cut(s@, c) is None,
        },
{
    match find_first(s, c) {
        Some(i) => {
            let n = s.unicode_len();
            let a = s.substring_char(0, i);
            let b = s.substring_char(i + 1, n);
            Some((a, b))
        },
        None => None,
    }
}

/// What follows `prefix` in `s`.
pub(crate) fn strip_prefix<'a>(s: &'a str, prefix: &str) -> (r: Option<&'a str>)
    ensures
        match r {
            Some(rest) => after_prefix(s@, prefix@) == Some(rest@),
            None => after_prefix(s@, prefix@) is None,
        },
{
    let n = s.unicode_len();
    let k = prefix.unicode_len();
    if k > n {
        return None;
    }
    let head = s.substring_char(0, k);
    if same_text(head, prefix) {
        assert(prefix@.is_prefix_of(s@));
        let rest = s.substring_char(k, n);
        Some(rest)
    } else {
        proof {
            if prefix@.is_prefix_of(s@) {
                assert(head@ =~= prefix@);
            }
        }
        None
    }
}

/// Whether `run` occurs in `s`.
pub(crate) fn contains_run(s: &str, run: &str) -> (r: bool)
    ensures
        r == has_run(s@, run@),
{
    let n = s.unicode_len();
    let k = run.unicode_len();
    if k > n {
        assert(forall|i: int| !run_at(s@, run@, i));
        return false;
    }
    let mut i: usize = 0;
    while i <= n - k
        invariant
            i <= n - k + 1,
            k <= n,
            n == s@.len(),
            k == run@.len(),
            forall|j: int| 0 <= j < i ==> !run_at(s@, run@, j),
        decreases n - k + 1 - i,
    {
        if same_text(s.substring_char(i, i + k), run) {
            assert(run_at(s@, run@, i as int));
            return true;
        }
        assert(!run_at(s@, run@, i as int));
        if i == n - k {
            assert(forall|j: int| !run_at(s@, run@, j));
            return false;
        }
        i += 1;
    }
    assert(forall|j: int| !run_at(s@, run@, j));
    false
}

/// The segments of `s` between its separators `c`.
pub(crate) fn split(s: &str, c: char) -> (r: Vec<String>)
    ensures
        texts(r@) == segments(s@, c),
        r.len() > 0,
{
    let v = chars_of(s);
    let n = v.len();
    let mut done: Vec<String> = Vec::new();
    let mut start: usize = 0;
    let mut i: usize = 0;
    assert(segments(s@.take(0), c) =~= texts(done@).push(s@.subrange(0, 0)));
    while i < n
        invariant
            start <= i <= n,
            n == v.len(),
            v@ == s@,
            segments(s@.take(i as int), c) == texts(done@).push(s@.subrange(start as int, i as int)),
        decreases n - i,
    {
        proof {
            let t = s@.take(i + 1);
            assert(t.drop_last() =~= s@.take(i as int));
            assert(t.last() == s@[i as int]);
        }
        if v[i] == c {
            let ghost before = done@;
            done.push(s.substring_char(start, i).to_owned());
            start = i + 1;
            proof {
                assert(texts(done@) =~= texts(before).push(done@.last()@));
                assert(s@.subrange(i + 1, i + 1) =~= Seq::<char>::empty());
            }
        } else {
            proof {
                let whole = texts(done@).push(s@.subrange(start as int, i as int));
                assert(s@.subrange(start as int, i as int).push(s@[i as int]) =~= s@.subrange(
                    start as int,
                    i + 1,
                ));
                assert(whole.update(whole.len() - 1, s@.subrange(start as int, i + 1))
                    =~= texts(done@).push(s@.subrange(start as int, i + 1)));
            }
        }
        i += 1;
    }
    assert(s@.take(n as int) =~= s@);
    let ghost before = done@;
    done.push(s.substring_char(start, n).to_owned());
    assert(texts(done@) =~= texts(before).push(done@.last()@));
    done
}

/// Joins `parts` with a slash between neighbours.
pub(crate) fn join_slash(parts: &Vec<String>) -> (r: String)
    ensures
        r@ == joined(texts(parts@), '/'),
{
    let mut r = String::new();
    let mut i: usize = 0;
    proof {
        assert(texts(parts@).take(0) =~= Seq::<Seq<char>>::empty());
    }
    while i < parts.len()
        invariant
            i <= parts.len(),
            r@ == joined(texts(parts@).take(i as int), '/'),
        decreases parts.len() - i,
    {
        proof {
            reveal_strlit("/");
            let all = texts(parts@);
            assert(all.take(i + 1).drop_last() =~= all.take(i as int));
            assert("/"@ =~= seq!['/']);
            assert(r@ + "/"@ =~= r@.push('/'));
            assert(r@ + parts@[i as int]@ =~= parts@[i as int]@ || i > 0);
        }
        if i > 0 {
            r.append("/");
        }
        r.append(parts[i].as_str());
        i += 1;
    }
    assert(texts(parts@).take(i as int) =~= texts(parts@));
    r
}

/// `s` without the slashes it ends in.
pub(crate) fn trim_end_slashes<'a>(s: &'a str) -> (r: &'a str)
    ensures
        r@ == without_trailing(s@, '/'),
{
    let v = chars_of(s);
    let mut n: usize = v.len();
    assert(s@.take(n as int) =~= s@);
    while n > 0 && v[n - 1] == '/'
        invariant
            n <= v.len(),
            v@ == s@,
            without_trailing(s@, '/') == without_trailing(s@.take(n as int), '/'),
        decreases n,
    {
        assert(s@.take(n as int).drop_last() =~= s@.take(n - 1));
        n -= 1;
    }
    s.substring_char(0, n)
}

/// The one-character text of a decimal digit.
fn digit_text(d: u32) -> (r: &'static str)
    requires
        d < 10,
    ensures
        r@ == seq![digit(d as int)],
{
    proof {
        reveal_strlit("0");
        reveal_strlit("1");
        reveal_strlit("2");
        reveal_strlit("3");
        reveal_strlit("4");
        reveal_strlit("5");
        reveal_strlit("6");
        reveal_strlit("7");
        reveal_strlit("8");
        reveal_strlit("9");
    }
    match d {
        0 => "0",
        1 => "1",
        2 => "2",
        3 => "3",
        4 => "4",
        5 => "5",
        6 => "6",
        7 => "7",
        8 => "8",
        _ => "9",
    }
}

/// `n` in decimal digits.
fn decimal_u32(n: u32) -> (r: String)
    ensures
        r@ == decimal_nat(n as nat),
    decreases n,
{
    if n < 10 {
        digit_text(n).to_owned()
    } else {
        let high = decimal_u32(n / 10);
        let low = digit_text(n % 10);
        assert(high@ + low@ =~= high@.push(digit((n % 10) as int)));
        high.concat(low)
    }
}

/// `n` in decimal.
pub(crate) fn decimal_i32(n: i32) -> (r: String)
    ensures
        r@ == decimal(n as int),
{
    if n < 0 {
        let magnitude: i64 = -(n as i64);
        proof {
            reveal_strlit("-");
            assert("-"@ =~= seq!['-']);
        }
        let digits = decimal_u32(magnitude as u32);
        "-".to_owned().concat(digits.as_str())
    } else {
        decimal_u32(n as u32)
    }
}

/// How the standard library writes a list of strings for debugging: what `{:?}` makes of it.
pub uninterp spec fn debug_text(items: Seq<Seq<char>>) -> Seq<char>;

/// Writes a list of strings as `format!("{:?}", ..)` of `std` does.
///
/// Nothing is claimed of the text but that the strings alone decide it.
#[verifier::external_body]
pub(crate) fn debug_list(items: &Vec<String>) -> (r: String)
    ensures
        r@ == debug_text(texts(items@)),
{
    format!("{:?}", items)
}

/// Decodes bytes with `String::from_utf8` of `std`.
///
/// The claim is what its documentation says: it succeeds exactly on valid UTF-8, and the string
/// then has these very bytes as its encoding.
#[verifier::external_body]
pub(crate) fn utf8_text(bytes: Vec<u8>) -> (r: Option<String>)
    ensures
        r is Some <==> vstd::utf8::valid_utf8(bytes@),
        r is Some ==> vstd::utf8::encode_utf8(r->0@) == bytes@,
{
    match String::from_utf8(bytes) {
        Ok(text) => Some(text),
        Err(_) => None,
    }
}

/// What follows a prefix is what the text is made of besides it.
pub proof fn law_prefixes(s: Seq<char>, prefix: Seq<char>, rest: Seq<char>)
    ensures
        after_prefix(s, prefix) == Some(rest) <==> s == prefix + rest,
        after_prefix(prefix + rest, prefix) == Some(rest),
{
    assert((prefix + rest).skip(prefix.len() as int) =~= rest);
    if prefix.is_prefix_of(s) {
        assert(s =~= prefix + s.skip(prefix.len() as int));
    }
}

/// A run occurs in a text exactly when the text is something, the run, and something.
pub proof fn law_runs(s: Seq<char>, run: Seq<char>)
    ensures
        has_run(s, run) <==> exists|a: Seq<char>, b: Seq<char>| s == #[trigger] (a + run + b),
{
    if has_run(s, run) {
        let i = choose|i: int| #[trigger] run_at(s, run, i);
        let a = s.take(i);
        let b = s.skip(i + run.len());
        assert(s =~= a + run + b);
    }
    if exists|a: Seq<char>, b: Seq<char>| s == #[trigger] (a + run + b) {
        let (a, b) = choose|a: Seq<char>, b: Seq<char>| s == #[trigger] (a + run + b);
        assert(s.subrange(a.len() as int, a.len() as int + run.len()) =~= run);
        assert(run_at(s, run, a.len() as int));
    }
}

/// One part joined is that part, and one part more comes after one separator more.
pub proof fn law_joining(parts: Seq<Seq<char>>, last: Seq<char>, c: char)
    ensures
        joined(seq![last], c) == last,
        parts.len() > 0 ==> joined(parts.push(last), c) == joined(parts, c) + seq![c] + last,
{
    assert(parts.push(last).drop_last() =~= parts);
    assert(joined(parts, c).push(c) =~= joined(parts, c) + seq![c]);
}

proof fn lemma_segments_of_joined(parts: Seq<Seq<char>>, c: char)
    requires
        parts.len() > 0,
        forall|i: int| 0 <= i < parts.len() ==> !(#[trigger] parts[i]).contains(c),
    ensures
        segments(joined(parts, c), c) == parts,
    decreases parts.len(), parts.last().len(),
{
    let s = joined(parts, c);
    let last = parts.last();
    if last.len() > 0 {
        let shorter = parts.update(parts.len() - 1, last.drop_last());
        assert forall|i: int| 0 <= i < shorter.len() implies !(#[trigger] shorter[i]).contains(c) by {
            assert(!parts[i].contains(c));
            if shorter[i].contains(c) {
                let j = choose|j: int| 0 <= j < shorter[i].len() && shorter[i][j] == c;
                assert(parts[i][j] == c);
            }
        }
        lemma_segments_of_joined(shorter, c);
        assert(shorter.drop_last() =~= parts.drop_last());
        assert(s.drop_last() =~= joined(shorter, c));
        assert(!parts[parts.len() - 1].contains(c));
        assert(last[last.len() - 1] == last.last());
        assert(s.last() == last.last());
        assert(last.drop_last().push(last.last()) =~= last);
        assert(segments(s, c) =~= parts);
    } else if parts.len() == 1 {
        assert(s.len() == 0);
        assert(segments(s, c) =~= parts);
    } else {
        let init = parts.drop_last();
        assert forall|i: int| 0 <= i < init.len() implies !(#[trigger] init[i]).contains(c) by {
            assert(!parts[i].contains(c));
        }
        lemma_segments_of_joined(init, c);
        assert(last =~= Seq::<char>::empty());
        assert(s =~= joined(init, c).push(c));
        assert(s.drop_last() =~= joined(init, c));
        assert(segments(s, c) =~= parts);
    }
}

/// Cutting apart and joining undo each other: a text is its segments joined, none of which holds
/// the separator, and parts that hold no separator are the segments of what they join to.
pub proof fn law_segments(s: Seq<char>, parts: Seq<Seq<char>>, c: char)
    ensures
        segments(s, c).len() > 0,
        joined(segments(s, c), c) == s,
        forall|i: int|
            0 <= i < segments(s, c).len() ==> !(#[trigger] segments(s, c)[i]).contains(c),
        parts.len() > 0 && (forall|i: int|
            0 <= i < parts.len() ==> !(#[trigger] parts[i]).contains(c)) ==> segments(
            joined(parts, c),
            c,
        ) == parts,
{
    lemma_segments(s, c);
    assert forall|i: int| 0 <= i < segments(s, c).len() implies !(#[trigger] segments(
        s,
        c,
    )[i]).contains(c) by {
        if segments(s, c)[i].contains(c) {
            let j = choose|j: int| 0 <= j < segments(s, c)[i].len() && segments(s, c)[i][j] == c;
            assert(segments(s, c)[i][j] != c);
        }
    }
    if parts.len() > 0 && (forall|i: int|
        0 <= i < parts.len() ==> !(#[trigger] parts[i]).contains(c)) {
        lemma_segments_of_joined(parts, c);
    }
}

/// Trimming takes away separators at the end, all of them, and nothing else.
pub proof fn law_trimming(s: Seq<char>, c: char)
    ensures
        ({
            let t = without_trailing(s, c);
            &&& t.is_prefix_of(s)
            &&& t.len() > 0 ==> t.last() != c
            &&& forall|i: int| t.len() <= i < s.len() ==> #[trigger] s[i] == c
        }),
    decreases s.len(),
{
    if s.len() > 0 && s.last() == c {
        let init = s.drop_last();
        law_trimming(init, c);
        let t = without_trailing(s, c);
        assert forall|i: int| t.len() <= i < s.len() implies #[trigger] s[i] == c by {
            if i < init.len() {
                assert(init[i] == s[i]);
            }
        }
    }
}

/// A number is written in decimal: one digit below ten, and above that the number without its
/// last digit followed by that digit; a minus sign comes before the digits of a negative one.
pub proof fn law_decimal(n: nat)
    ensures
        decimal(n as int) == if n < 10 {
            seq!["0123456789"@[n as int]]
        } else {
            decimal((n / 10) as int) + seq!["0123456789"@[(n % 10) as int]]
        },
        n > 0 ==> decimal(-(n as int)) == "-"@ + decimal(n as int),
{
    reveal_strlit("0123456789");
    reveal_strlit("-");
    assert("-"@ =~= seq!['-']);
    let d = (n % 10) as int;
    assert("0123456789"@[d] == digit(d));
    if n >= 10 {
        assert(decimal((n / 10) as int) + seq![digit(d)] =~= decimal_nat(n / 10).push(digit(d)));
    }
}

/// Lists of strings and optional strings are seen string by string, none left out.
pub proof fn law_texts_are_seen_whole(v: Seq<String>, s: String, t: &str)
    ensures
        texts(v).len() == v.len(),
        forall|i: int| 0 <= i < v.len() ==> #[trigger] texts(v)[i] == v[i]@,
        text_opt(Some(s)) == Some(s@),
        text_opt(None) == None::<Seq<char>>,
        str_opt(Some(t)) == Some(t@),
        str_opt(None) == None::<Seq<char>>,
{
}

} // verus!
