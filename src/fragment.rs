use vstd::prelude::*;

verus! {

/// Number of characters of `s` before its first `/` (all of `s` if none).
pub open spec fn token_len(s: Seq<char>) -> nat
    decreases s.len(),
{
    if s.len() == 0 || s[0] == '/' {
        0
    } else {
        1 + token_len(s.drop_first())
    }
}

/// The non-empty `/`-separated components of a path, in order.
pub open spec fn components_of(s: Seq<char>) -> Seq<Seq<char>>
    decreases s.len(),
{
    if s.len() == 0 {
        seq![]
    } else if s[0] == '/' {
        components_of(s.drop_first())
    } else {
        let t = token_len(s);
        if 0 < t <= s.len() {
            seq![s.take(t as int)] + components_of(s.skip(t as int))
        } else {
            seq![]
        }
    }
}

/// Value of the decimal digits `s` (all assumed to be `0`..`9`).
pub open spec fn digits_value(s: Seq<char>) -> nat
    decreases s.len(),
{
    if s.len() == 0 {
        0
    } else {
        digits_value(s.drop_last()) * 10 + (s.last() as nat - '0' as nat) as nat
    }
}

/// `c` is one of the ASCII digits `0` to `9`.
pub open spec fn is_digit(c: char) -> bool {
    '0' <= c <= '9'
}

/// The digits of an index: `s` without one leading `+`, if it has one.
pub open spec fn unsigned_digits(s: Seq<char>) -> Seq<char> {
    if s.len() > 0 && s[0] == '+' {
        s.drop_first()
    } else {
        s
    }
}

/// The array position written by `s`: an optional `+` followed by one or
/// more decimal digits whose value fits in `usize`.
pub open spec fn parse_index(s: Seq<char>) -> Option<usize> {
    parse_digits(unsigned_digits(s))
}

/// The value of `s` when it is one or more decimal digits whose value fits
/// in `usize`.
pub open spec fn parse_digits(s: Seq<char>) -> Option<usize> {
    if s.len() > 0 && (forall|i: int| 0 <= i < s.len() ==> is_digit(#[trigger] s[i]))
        && digits_value(s) <= usize::MAX {
        Some(digits_value(s) as usize)
    } else {
        None
    }
}

proof fn lemma_token_len(s: Seq<char>, k: int)
    requires
        0 <= k <= s.len(),
        forall|j: int| 0 <= j < k ==> s[j] != '/',
        k == s.len() || s[k] == '/',
    ensures
        token_len(s) == k,
    decreases k,
{
    if k > 0 {
        lemma_token_len(s.drop_first(), k - 1);
    }
}

proof fn lemma_digits_monotone(s: Seq<char>, i: int)
    requires
        0 <= i <= s.len(),
    ensures
        digits_value(s.take(i)) <= digits_value(s),
    decreases s.len(),
{
    if i < s.len() {
        assert(s.drop_last().take(i) =~= s.take(i));
        lemma_digits_monotone(s.drop_last(), i);
    } else {
        assert(s.take(i) =~= s);
    }
}

/// Splits a path into its non-empty components; a leading `/` and an empty
/// path give no leading component.
pub fn fragment_components(fragment: &str) -> (r: Vec<&str>)
    ensures
        r@.map_values(|c: &str| c@) == components_of(fragment@),
{
    let n = fragment.unicode_len();
    let ghost s = fragment@;
    let mut out: Vec<&str> = Vec::new();
    let mut start: usize = 0;
    let mut i: usize = 0;
    assert(s.skip(0) =~= s);
    assert(out@.map_values(|c: &str| c@) =~= Seq::<Seq<char>>::empty());
    while i < n
        invariant
            n == s.len(),
            s == fragment@,
            0 <= start <= i <= n,
            forall|j: int| start <= j < i ==> s[j] != '/',
            out@.map_values(|c: &str| c@) + components_of(s.skip(start as int)) == components_of(s),
        decreases n - i,
    {
        if fragment.get_char(i) == '/' {
            end_component(fragment, &mut out, start, i);
            start = i + 1;
        }
        i = i + 1;
    }
    end_component(fragment, &mut out, start, n);
    out
}

/// Closes the component `fragment[start..end]`, which holds no `/` and is
/// followed by a `/` or by the end of the path.
fn end_component<'a>(fragment: &'a str, out: &mut Vec<&'a str>, start: usize, end: usize)
    requires
        start <= end <= fragment@.len(),
        forall|j: int| start <= j < end ==> fragment@[j] != '/',
        end == fragment@.len() || fragment@[end as int] == '/',
        old(out)@.map_values(|c: &str| c@) + components_of(fragment@.skip(start as int))
            == components_of(fragment@),
    ensures
        end < fragment@.len() ==> final(out)@.map_values(|c: &str| c@) + components_of(
            fragment@.skip(end + 1),
        ) == components_of(fragment@),
        end == fragment@.len() ==> final(out)@.map_values(|c: &str| c@) == components_of(
            fragment@,
        ),
{
    let ghost s = fragment@;
    let ghost rest = s.skip(start as int);
    let ghost before = out@.map_values(|c: &str| c@);
    proof {
        lemma_token_len(rest, end - start);
    }
    if end > start {
        let part = fragment.substring_char(start, end);
        out.push(part);
        proof {
            assert(rest.take(end - start) =~= part@);
            assert(rest.skip(end - start) =~= s.skip(end as int));
            assert(out@.map_values(|c: &str| c@) =~= before.push(part@));
            assert(components_of(rest) == seq![part@] + components_of(s.skip(end as int)));
            assert(before + components_of(rest) =~= before.push(part@) + components_of(
                s.skip(end as int),
            ));
        }
    } else {
        assert(rest =~= s.skip(end as int));
    }
    proof {
        if end < s.len() {
            assert(s.skip(end as int).drop_first() =~= s.skip(end + 1));
        } else {
            assert(s.skip(end as int).len() == 0);
            assert(out@.map_values(|c: &str| c@) + components_of(s.skip(end as int))
                =~= out@.map_values(|c: &str| c@));
        }
    }
}

/// Reads `text` as a decimal array position; `None` unless it is an
/// optional `+` followed by one or more ASCII digits whose value fits in
/// `usize`.
pub fn parse_index_of(text: &str) -> (r: Option<usize>)
    ensures
        r == parse_index(text@),
{
    let n = text.unicode_len();
    if n > 0 && text.get_char(0) == '+' {
        let digits = text.substring_char(1, n);
        assert(digits@ =~= unsigned_digits(text@));
        parse_digits_of(digits)
    } else {
        parse_digits_of(text)
    }
}

/// Reads `text` as decimal digits; `None` unless it is one or more ASCII
/// digits whose value fits in `usize`.
fn parse_digits_of(text: &str) -> (r: Option<usize>)
    ensures
        r == parse_digits(text@),
{
    let n = text.unicode_len();
    if n == 0 {
        return None;
    }
    let ghost s = text@;
    let mut acc: usize = 0;
    let mut i: usize = 0;
    while i < n
        invariant
            n == s.len(),
            s == text@,
            0 <= i <= n,
            forall|j: int| 0 <= j < i ==> is_digit(#[trigger] s[j]),
            acc == digits_value(s.take(i as int)),
        decreases n - i,
    {
        let c = text.get_char(i);
        if !('0' <= c && c <= '9') {
            assert(!is_digit(s[i as int]));
            return None;
        }
        let d = (c as u32 - '0' as u32) as usize;
        assert(s.take(i + 1).drop_last() =~= s.take(i as int));
        match acc.checked_mul(10) {
            Some(m) => match m.checked_add(d) {
                Some(v) => {
                    acc = v;
                },
                None => {
                    proof {
                        lemma_rest_digits(s, i + 1);
                    }
                    return None;
                },
            },
            None => {
                proof {
                    lemma_rest_digits(s, i + 1);
                }
                return None;
            },
        }
        i = i + 1;
    }
    assert(s.take(n as int) =~= s);
    Some(acc)
}

proof fn lemma_rest_digits(s: Seq<char>, k: int)
    requires
        0 < k <= s.len(),
        digits_value(s.take(k)) > usize::MAX,
    ensures
        parse_digits(s) is None,
{
    if s.len() > 0 && (forall|i: int| 0 <= i < s.len() ==> is_digit(#[trigger] s[i])) {
        lemma_digits_monotone(s, k);
    }
}

} // verus!
