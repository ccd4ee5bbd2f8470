//! Byte-level text scanning: whitespace, lines, tokens, and unsigned decimal
//! numbers, as they appear in cgroup v2 accounting files.

use vstd::prelude::*;

verus! {

/// ASCII whitespace, as `char::is_whitespace` classifies bytes below 0x80.
pub open spec fn is_ws(b: u8) -> bool {
    b == 0x20 || b == 0x09 || b == 0x0a || b == 0x0b || b == 0x0c || b == 0x0d
}

pub fn byte_is_ws(b: u8) -> (r: bool)
    ensures
        r == is_ws(b),
{
    b == 0x20 || (0x09 <= b && b <= 0x0d)
}

/// ASCII decimal digit.
pub open spec fn is_digit(b: u8) -> bool {
    0x30 <= b && b <= 0x39
}

pub open spec fn all_digits(s: Seq<u8>) -> bool {
    forall|i: int| 0 <= i < s.len() ==> is_digit(s[i])
}

/// Value of a digit string read in base 10.
pub open spec fn digits_val(s: Seq<u8>) -> nat
    decreases s.len(),
{
    if s.len() == 0 {
        0
    } else {
        (digits_val(s.drop_last()) * 10 + (s.last() - 0x30)) as nat
    }
}

/// One element of a nested vector, seen through `deep_view`, is that
/// element's own view.
pub proof fn lemma_deep_view_index(v: Vec<Vec<u8>>, i: int)
    requires
        0 <= i < v@.len(),
    ensures
        v.deep_view()[i] == v@[i]@,
{
    assert(v.deep_view()[i] == v@[i].deep_view());
    assert(v@[i].deep_view() =~= v@[i]@);
}

/// An unbounded count clamped to what a `u64` can carry.
pub open spec fn clamp_u64(n: nat) -> u64 {
    if n > u64::MAX {
        u64::MAX
    } else {
        n as u64
    }
}

/// What `str::parse::<u64>` yields on a byte string of ASCII text: the value
/// if the text is one or more digits and fits in a `u64`, nothing otherwise.
pub open spec fn parse_u64_spec(s: Seq<u8>) -> Option<u64> {
    if s.len() > 0 && all_digits(s) && digits_val(s) <= u64::MAX {
        Some(digits_val(s) as u64)
    } else {
        None
    }
}

/// A digit-string prefix never exceeds the value of the whole string.
pub proof fn lemma_digits_val_prefix_le(s: Seq<u8>, i: int)
    requires
        0 <= i <= s.len(),
        all_digits(s),
    ensures
        digits_val(s.subrange(0, i)) <= digits_val(s),
    decreases s.len() - i,
{
    if i == s.len() {
        assert(s.subrange(0, i) =~= s);
    } else {
        lemma_digits_val_prefix_le(s, i + 1);
        assert(s.subrange(0, i + 1).drop_last() =~= s.subrange(0, i));
        assert(digits_val(s.subrange(0, i)) <= digits_val(s.subrange(0, i + 1)));
    }
}

pub fn parse_u64(s: &[u8]) -> (r: Option<u64>)
    ensures
        r == parse_u64_spec(s@),
{
    if s.len() == 0 {
        return None;
    }
    let mut acc: u64 = 0;
    let mut i: usize = 0;
    while i < s.len()
        invariant
            0 <= i <= s@.len(),
            all_digits(s@.subrange(0, i as int)),
            acc == digits_val(s@.subrange(0, i as int)),
        decreases s@.len() - i,
    {
        let b = s[i];
        if !(0x30 <= b && b <= 0x39) {
            assert(!all_digits(s@));
            return None;
        }
        let d: u64 = (b - 0x30) as u64;
        proof {
            assert(s@.subrange(0, i + 1).drop_last() =~= s@.subrange(0, i as int));
        }
        let shifted: u64 = match acc.checked_mul(10) {
            Some(v) => v,
            None => {
                proof {
                    if all_digits(s@) {
                        lemma_digits_val_prefix_le(s@, i + 1);
                    }
                }
                return None;
            },
        };
        acc = match shifted.checked_add(d) {
            Some(v) => v,
            None => {
                proof {
                    if all_digits(s@) {
                        lemma_digits_val_prefix_le(s@, i + 1);
                    }
                }
                return None;
            },
        };
        i = i + 1;
    }
    proof {
        assert(s@.subrange(0, s@.len() as int) =~= s@);
    }
    Some(acc)
}

/// Index of the first byte satisfying `p`, or `s.len()` if there is none.
pub open spec fn find_first(s: Seq<u8>, p: spec_fn(u8) -> bool) -> int
    decreases s.len(),
{
    if s.len() == 0 {
        0
    } else if p(s[0]) {
        0
    } else {
        1 + find_first(s.drop_first(), p)
    }
}

pub open spec fn nl_p() -> spec_fn(u8) -> bool {
    |b: u8| b == 0x0a
}

pub open spec fn ws_p() -> spec_fn(u8) -> bool {
    |b: u8| is_ws(b)
}

pub proof fn lemma_find_first_props(s: Seq<u8>, p: spec_fn(u8) -> bool)
    ensures
        0 <= find_first(s, p) <= s.len(),
        forall|j: int| 0 <= j < find_first(s, p) ==> !p(s[j]),
        find_first(s, p) < s.len() ==> p(s[find_first(s, p)]),
    decreases s.len(),
{
    if s.len() == 0 {
    } else if p(s[0]) {
    } else {
        lemma_find_first_props(s.drop_first(), p);
        assert forall|j: int| 0 <= j < find_first(s, p) implies !p(s[j]) by {
            if j > 0 {
                assert(s[j] == s.drop_first()[j - 1]);
            }
        }
        if find_first(s, p) < s.len() {
            assert(s[find_first(s, p)] == s.drop_first()[find_first(s.drop_first(), p)]);
        }
    }
}

/// `find_first` is pinned by its characteristic properties.
pub proof fn lemma_find_first_at(s: Seq<u8>, p: spec_fn(u8) -> bool, k: int)
    requires
        0 <= k <= s.len(),
        forall|j: int| 0 <= j < k ==> !p(s[j]),
        k < s.len() ==> p(s[k]),
    ensures
        find_first(s, p) == k,
    decreases s.len(),
{
    if s.len() == 0 {
    } else if p(s[0]) {
        assert(k == 0);
    } else {
        assert(k >= 1);
        assert forall|j: int| 0 <= j < k - 1 implies !p(s.drop_first()[j]) by {
            assert(s.drop_first()[j] == s[j + 1]);
        }
        if k - 1 < s.drop_first().len() {
            assert(s.drop_first()[k - 1] == s[k]);
        }
        lemma_find_first_at(s.drop_first(), p, k - 1);
    }
}

/// A line with its trailing carriage return removed, as `str::lines` does.
pub open spec fn strip_cr(l: Seq<u8>) -> Seq<u8> {
    if l.len() > 0 && l.last() == 0x0d {
        l.drop_last()
    } else {
        l
    }
}

/// The lines of a text, split as `str::lines` splits them: separated by
/// newline bytes, each stripped of a trailing carriage return, with no empty
/// final line when the text ends in a newline.
pub open spec fn lines_spec(s: Seq<u8>) -> Seq<Seq<u8>>
    decreases s.len(),
    via lines_spec_dec
{
    if s.len() == 0 {
        Seq::empty()
    } else {
        let i = find_first(s, nl_p());
        if i == s.len() {
            seq![strip_cr(s)]
        } else {
            seq![strip_cr(s.subrange(0, i))] + lines_spec(s.subrange(i + 1, s.len() as int))
        }
    }
}

#[via_fn]
proof fn lines_spec_dec(s: Seq<u8>) {
    lemma_find_first_props(s, nl_p());
}

/// Whitespace-separated tokens, as `str::split_whitespace` yields them.
pub open spec fn tokens_spec(s: Seq<u8>) -> Seq<Seq<u8>>
    decreases s.len(),
    via tokens_spec_dec
{
    if s.len() == 0 {
        Seq::empty()
    } else if is_ws(s[0]) {
        tokens_spec(s.drop_first())
    } else {
        let i = find_first(s, ws_p());
        seq![s.subrange(0, i)] + tokens_spec(s.subrange(i, s.len() as int))
    }
}

#[via_fn]
proof fn tokens_spec_dec(s: Seq<u8>) {
    lemma_find_first_props(s, ws_p());
}

pub fn split_lines(s: &[u8]) -> (r: Vec<Vec<u8>>)
    ensures
        r.deep_view() == lines_spec(s@),
{
    let mut acc: Vec<Vec<u8>> = Vec::new();
    let mut start: usize = 0;
    proof {
        assert(s@.subrange(0, s@.len() as int) =~= s@);
        assert(acc.deep_view() + lines_spec(s@) =~~= lines_spec(s@));
    }
    while start < s.len()
        invariant
            0 <= start <= s@.len(),
            lines_spec(s@) == acc.deep_view() + lines_spec(s@.subrange(start as int, s@.len() as int)),
        decreases s@.len() - start,
    {
        let ghost suf = s@.subrange(start as int, s@.len() as int);
        let mut i: usize = start;
        while i < s.len() && s[i] != 0x0a
            invariant
                start <= i <= s@.len(),
                forall|j: int| start <= j < i ==> s@[j] != 0x0a,
            decreases s@.len() - i,
        {
            i = i + 1;
        }
        proof {
            assert forall|j: int| 0 <= j < i - start implies !(nl_p()(suf[j])) by {
                assert(suf[j] == s@[start + j]);
            }
            if i < s.len() {
                assert(nl_p()(suf[i - start]));
            }
            lemma_find_first_at(suf, nl_p(), i - start);
        }
        let mut endx: usize = i;
        if endx > start && s[endx - 1] == 0x0d {
            endx = endx - 1;
        }
        let mut line: Vec<u8> = Vec::new();
        let mut k: usize = start;
        while k < endx
            invariant
                start <= k <= endx <= s@.len(),
                line@ == s@.subrange(start as int, k as int),
            decreases endx - k,
        {
            line.push(s[k]);
            proof {
                assert(line@ =~= s@.subrange(start as int, k + 1));
            }
            k = k + 1;
        }
        proof {
            if i == s.len() {
                assert(suf.subrange(0, i - start) =~= suf);
                assert(line@ =~= strip_cr(suf));
            } else {
                assert(suf.subrange(0, i - start) =~= s@.subrange(start as int, i as int));
                assert(line@ =~= strip_cr(s@.subrange(start as int, i as int)));
            }
        }
        let ghost old_deep = acc.deep_view();
        acc.push(line);
        proof {
            assert(acc.deep_view() =~~= old_deep.push(line@));
            if i < s.len() {
                assert(suf.subrange(i - start + 1, suf.len() as int) =~= s@.subrange(
                    i + 1,
                    s@.len() as int,
                ));
                assert(lines_spec(s@) =~~= acc.deep_view() + lines_spec(
                    s@.subrange(i + 1, s@.len() as int),
                ));
            } else {
                assert(lines_spec(s@) =~~= acc.deep_view() + lines_spec(
                    s@.subrange(s@.len() as int, s@.len() as int),
                ));
            }
        }
        if i < s.len() {
            start = i + 1;
        } else {
            start = s.len();
        }
    }
    proof {
        assert(lines_spec(s@.subrange(start as int, s@.len() as int)) =~= Seq::<Seq<u8>>::empty());
        assert(acc.deep_view() =~~= lines_spec(s@));
    }
    acc
}

pub fn split_ws(s: &[u8]) -> (r: Vec<Vec<u8>>)
    ensures
        r.deep_view() == tokens_spec(s@),
{
    let mut acc: Vec<Vec<u8>> = Vec::new();
    let mut pos: usize = 0;
    proof {
        assert(s@.subrange(0, s@.len() as int) =~= s@);
        assert(acc.deep_view() + tokens_spec(s@) =~~= tokens_spec(s@));
    }
    while pos < s.len()
        invariant
            0 <= pos <= s@.len(),
            tokens_spec(s@) == acc.deep_view() + tokens_spec(s@.subrange(pos as int, s@.len() as int)),
        decreases s@.len() - pos,
    {
        let ghost suf = s@.subrange(pos as int, s@.len() as int);
        if byte_is_ws(s[pos]) {
            proof {
                assert(suf.drop_first() =~= s@.subrange(pos + 1, s@.len() as int));
            }
            pos = pos + 1;
        } else {
            let mut e: usize = pos;
            while e < s.len() && !(s[e] == 0x20 || (0x09 <= s[e] && s[e] <= 0x0d))
                invariant
                    pos <= e <= s@.len(),
                    forall|j: int| pos <= j < e ==> !is_ws(s@[j]),
                decreases s@.len() - e,
            {
                e = e + 1;
            }
            proof {
                assert forall|j: int| 0 <= j < e - pos implies !(ws_p()(suf[j])) by {
                    assert(suf[j] == s@[pos + j]);
                }
                if e < s.len() {
                    assert(ws_p()(suf[e - pos]));
                }
                lemma_find_first_at(suf, ws_p(), e - pos);
            }
            let mut tok: Vec<u8> = Vec::new();
            let mut k: usize = pos;
            while k < e
                invariant
                    pos <= k <= e <= s@.len(),
                    tok@ == s@.subrange(pos as int, k as int),
                decreases e - k,
            {
                tok.push(s[k]);
                proof {
                    assert(tok@ =~= s@.subrange(pos as int, k + 1));
                }
                k = k + 1;
            }
            proof {
                assert(suf.subrange(0, e - pos) =~= s@.subrange(pos as int, e as int));
                assert(tok@ =~= suf.subrange(0, e - pos));
            }
            let ghost old_deep = acc.deep_view();
            acc.push(tok);
            proof {
                assert(acc.deep_view() =~~= old_deep.push(tok@));
                assert(suf.subrange(e - pos, suf.len() as int) =~= s@.subrange(
                    e as int,
                    s@.len() as int,
                ));
                assert(tokens_spec(s@) =~~= acc.deep_view() + tokens_spec(
                    s@.subrange(e as int, s@.len() as int),
                ));
            }
            pos = e;
        }
    }
    proof {
        assert(tokens_spec(s@.subrange(pos as int, s@.len() as int)) =~= Seq::<Seq<u8>>::empty());
        assert(acc.deep_view() =~~= tokens_spec(s@));
    }
    acc
}

pub open spec fn trim_start_spec(s: Seq<u8>) -> Seq<u8>
    decreases s.len(),
{
    if s.len() > 0 && is_ws(s[0]) {
        trim_start_spec(s.drop_first())
    } else {
        s
    }
}

pub open spec fn trim_end_spec(s: Seq<u8>) -> Seq<u8>
    decreases s.len(),
{
    if s.len() > 0 && is_ws(s.last()) {
        trim_end_spec(s.drop_last())
    } else {
        s
    }
}

/// Whitespace trimmed from both ends, as `str::trim` does for ASCII text.
pub open spec fn trim_spec(s: Seq<u8>) -> Seq<u8> {
    trim_end_spec(trim_start_spec(s))
}

pub fn trim(s: &[u8]) -> (r: Vec<u8>)
    ensures
        r@ == trim_spec(s@),
{
    let mut lo: usize = 0;
    proof {
        assert(s@.subrange(0, s@.len() as int) =~= s@);
    }
    while lo < s.len() && (s[lo] == 0x20 || (0x09 <= s[lo] && s[lo] <= 0x0d))
        invariant
            0 <= lo <= s@.len(),
            trim_start_spec(s@) == trim_start_spec(s@.subrange(lo as int, s@.len() as int)),
        decreases s@.len() - lo,
    {
        proof {
            assert(s@.subrange(lo as int, s@.len() as int).drop_first() =~= s@.subrange(
                lo + 1,
                s@.len() as int,
            ));
        }
        lo = lo + 1;
    }
    proof {
        assert(trim_start_spec(s@) =~= s@.subrange(lo as int, s@.len() as int));
    }
    let mut hi: usize = s.len();
    while hi > lo && (s[hi - 1] == 0x20 || (0x09 <= s[hi - 1] && s[hi - 1] <= 0x0d))
        invariant
            lo <= hi <= s@.len(),
            trim_end_spec(s@.subrange(lo as int, s@.len() as int)) == trim_end_spec(
                s@.subrange(lo as int, hi as int),
            ),
        decreases hi,
    {
        proof {
            assert(s@.subrange(lo as int, hi as int).drop_last() =~= s@.subrange(
                lo as int,
                hi - 1,
            ));
        }
        hi = hi - 1;
    }
    proof {
        assert(trim_spec(s@) =~= s@.subrange(lo as int, hi as int));
    }
    let mut r: Vec<u8> = Vec::new();
    let mut k: usize = lo;
    while k < hi
        invariant
            lo <= k <= hi <= s@.len(),
            r@ == s@.subrange(lo as int, k as int),
        decreases hi - k,
    {
        r.push(s[k]);
        proof {
            assert(r@ =~= s@.subrange(lo as int, k + 1));
        }
        k = k + 1;
    }
    r
}

/// The needle occurs as a contiguous run somewhere in the haystack.
pub open spec fn is_substring(needle: Seq<u8>, hay: Seq<u8>) -> bool {
    exists|k: int|
        0 <= k <= hay.len() - needle.len() && #[trigger] hay.subrange(k, k + needle.len())
            == needle
}

fn match_at(hay: &[u8], at: usize, needle: &[u8]) -> (r: bool)
    requires
        at + needle@.len() <= hay@.len(),
    ensures
        r == (hay@.subrange(at as int, at + needle@.len()) == needle@),
{
    let hlen: usize = hay.len();
    let mut m: usize = 0;
    while m < needle.len()
        invariant
            at + needle@.len() <= hay@.len(),
            hay@.len() == hlen,
            0 <= m <= needle@.len(),
            forall|j: int| 0 <= j < m ==> hay@[at + j] == needle@[j],
        decreases needle@.len() - m,
    {
        if hay[at + m] != needle[m] {
            proof {
                assert(hay@.subrange(at as int, at + needle@.len())[m as int] != needle@[
                    m as int]);
            }
            return false;
        }
        m = m + 1;
    }
    proof {
        assert(hay@.subrange(at as int, at + needle@.len()) =~= needle@);
    }
    true
}

pub fn contains_sub(hay: &[u8], needle: &[u8]) -> (r: bool)
    ensures
        r == is_substring(needle@, hay@),
{
    if needle.len() > hay.len() {
        return false;
    }
    if needle.len() == 0 {
        proof {
            assert(hay@.subrange(0, 0 + needle@.len() as int) =~= needle@);
        }
        return true;
    }
    let hlen: usize = hay.len();
    let bound: usize = hay.len() - needle.len();
    let mut k: usize = 0;
    while k <= bound
        invariant
            1 <= needle@.len() <= hay@.len(),
            hay@.len() == hlen,
            bound == hay@.len() - needle@.len(),
            0 <= k <= bound + 1,
            forall|j: int|
                0 <= j < k ==> #[trigger] hay@.subrange(j, j + needle@.len()) != needle@,
        decreases bound + 1 - k,
    {
        if match_at(hay, k, needle) {
            return true;
        }
        k = k + 1;
    }
    false
}

pub fn starts_with(s: &[u8], prefix: &[u8]) -> (r: bool)
    ensures
        r == (s@.len() >= prefix@.len() && s@.subrange(0, prefix@.len() as int) == prefix@),
{
    if s.len() < prefix.len() {
        return false;
    }
    match_at(s, 0, prefix)
}

pub fn bytes_eq(a: &[u8], b: &[u8]) -> (r: bool)
    ensures
        r == (a@ == b@),
{
    if a.len() != b.len() {
        return false;
    }
    let r = match_at(a, 0, b);
    proof {
        assert(a@.subrange(0, b@.len() as int) =~= a@);
    }
    r
}

} // verus!
