//! Character-level helpers shared by both protocol dialects: trimming
//! whitespace and taking the last space-delimited token of a response.

use vstd::prelude::*;
use vstd::string::StrSliceExecFns;

verus! {

/// The characters `str::trim_end` treats as whitespace (Unicode
/// `White_Space`), stated over the scalar value.
pub open spec fn is_ws_char(c: char) -> bool {
    ||| c == ' '
    ||| c == '\t'
    ||| c == '\n'
    ||| c == '\u{0b}'
    ||| c == '\u{0c}'
    ||| c == '\r'
    ||| c == '\u{85}'
    ||| c == '\u{a0}'
    ||| c == '\u{1680}'
    ||| (0x2000 <= c as u32 && c as u32 <= 0x200a)
    ||| c == '\u{2028}'
    ||| c == '\u{2029}'
    ||| c == '\u{202f}'
    ||| c == '\u{205f}'
    ||| c == '\u{3000}'
}

/// Length of `s` once trailing whitespace is dropped.
pub open spec fn trimmed_end_len(s: Seq<char>) -> nat
    decreases s.len(),
{
    if s.len() > 0 && is_ws_char(s.last()) {
        trimmed_end_len(s.drop_last())
    } else {
        s.len()
    }
}

/// `s` without its trailing whitespace, as `str::trim_end` leaves it.
pub open spec fn trim_end_spec(s: Seq<char>) -> Seq<char> {
    s.subrange(0, trimmed_end_len(s) as int)
}

/// Count of leading whitespace characters of `s`.
pub open spec fn leading_ws_len(s: Seq<char>) -> nat
    decreases s.len(),
{
    if s.len() > 0 && is_ws_char(s.first()) {
        (1 + leading_ws_len(s.drop_first())) as nat
    } else {
        0
    }
}

/// `s` without leading and trailing whitespace, as `str::trim` leaves it.
pub open spec fn trim_spec(s: Seq<char>) -> Seq<char> {
    let t = trim_end_spec(s);
    t.subrange(leading_ws_len(t) as int, t.len() as int)
}

/// Index where the last space-delimited token of `s` starts: everything from
/// here on is free of `' '`, and either the token starts the string or a
/// space stands right before it.
pub open spec fn last_token_start(s: Seq<char>) -> nat
    decreases s.len(),
{
    if s.len() == 0 {
        0
    } else if s.last() == ' ' {
        s.len()
    } else {
        last_token_start(s.drop_last())
    }
}

/// The last space-delimited token of `s` (the whole of `s` when it holds no
/// space; empty when `s` ends in a space).
pub open spec fn last_token(s: Seq<char>) -> Seq<char> {
    s.subrange(last_token_start(s) as int, s.len() as int)
}

/// What `String::from_utf8_lossy` decodes a byte sequence to: the decoding
/// is a function of the bytes alone, so it is only named here, never spelled
/// out.
pub uninterp spec fn lossy_utf8(bytes: Seq<u8>) -> Seq<char>;

/// Relies on `String::from_utf8_lossy`: decodes bytes as UTF-8, replacing
/// invalid sequences with the replacement character, never rejecting.
#[verifier::external_body]
pub(crate) fn utf8_lossy(bytes: &[u8]) -> (r: String)
    ensures
        r@ == lossy_utf8(bytes@),
{
    String::from_utf8_lossy(bytes).into_owned()
}

/// Exec mirror of [`is_ws_char`].
pub fn is_ws(c: char) -> (r: bool)
    ensures
        r == is_ws_char(c),
{
    let v = c as u32;
    v == 0x20 || v == 0x09 || v == 0x0a || v == 0x0b || v == 0x0c || v == 0x0d || v == 0x85
        || v == 0xa0 || v == 0x1680 || (0x2000 <= v && v <= 0x200a) || v == 0x2028 || v == 0x2029
        || v == 0x202f || v == 0x205f || v == 0x3000
}

proof fn lemma_trimmed_end_prefix(s: Seq<char>, i: int)
    requires
        0 <= i <= s.len(),
        forall|k: int| i <= k < s.len() ==> is_ws_char(s[k]),
    ensures
        trimmed_end_len(s) == trimmed_end_len(s.subrange(0, i)),
    decreases s.len() - i,
{
    if i < s.len() {
        lemma_trimmed_end_prefix(s, i + 1);
        let t = s.subrange(0, i + 1);
        assert(is_ws_char(t.last()));
        assert(t.drop_last() =~= s.subrange(0, i));
        assert(trimmed_end_len(t) == trimmed_end_len(s.subrange(0, i)));
    } else {
        assert(s.subrange(0, s.len() as int) =~= s);
    }
}

/// `str::trim_end`, verified: drops exactly the trailing whitespace.
pub fn trim_end_str(s: &str) -> (r: String)
    ensures
        r@ == trim_end_spec(s@),
{
    let len = s.unicode_len();
    let mut i: usize = len;
    while i > 0 && is_ws(s.get_char(i - 1))
        invariant
            i <= len,
            len == s@.len(),
            forall|k: int| i <= k < s@.len() ==> is_ws_char(s@[k]),
        decreases i,
    {
        i = i - 1;
    }
    proof {
        lemma_trimmed_end_prefix(s@, i as int);
        if i > 0 {
            let t = s@.subrange(0, i as int);
            assert(t.last() == s@[i - 1]);
            assert(!is_ws_char(t.last()));
            assert(trimmed_end_len(t) == t.len());
        }
        assert(trimmed_end_len(s@) == i);
    }
    let r = s.substring_char(0, i);
    proof {
        assert(r@ =~= trim_end_spec(s@));
    }
    r.to_owned()
}

proof fn lemma_leading_ws_skip(s: Seq<char>, i: int)
    requires
        0 <= i <= s.len(),
        forall|k: int| 0 <= k < i ==> is_ws_char(s[k]),
    ensures
        leading_ws_len(s) == i + leading_ws_len(s.subrange(i, s.len() as int)),
    decreases i,
{
    if i > 0 {
        let u = s.subrange(i - 1, s.len() as int);
        assert(u.first() == s[i - 1]);
        assert(u.drop_first() =~= s.subrange(i, s.len() as int));
        lemma_leading_ws_skip(s, i - 1);
    } else {
        assert(s.subrange(0, s.len() as int) =~= s);
    }
}

/// `str::trim`, verified: drops exactly the leading and trailing whitespace.
pub fn trim_str(s: &str) -> (r: String)
    ensures
        r@ == trim_spec(s@),
{
    let len = s.unicode_len();
    let mut end: usize = len;
    while end > 0 && is_ws(s.get_char(end - 1))
        invariant
            end <= len,
            len == s@.len(),
            forall|k: int| end <= k < s@.len() ==> is_ws_char(s@[k]),
        decreases end,
    {
        end = end - 1;
    }
    proof {
        lemma_trimmed_end_prefix(s@, end as int);
        if end > 0 {
            let t = s@.subrange(0, end as int);
            assert(t.last() == s@[end - 1]);
            assert(trimmed_end_len(t) == t.len());
        }
        assert(trimmed_end_len(s@) == end);
    }
    let ghost t = trim_end_spec(s@);
    let mut start: usize = 0;
    while start < end && is_ws(s.get_char(start))
        invariant
            start <= end,
            end <= s@.len(),
            t == s@.subrange(0, end as int),
            forall|k: int| 0 <= k < start ==> is_ws_char(s@[k]),
        decreases end - start,
    {
        start = start + 1;
    }
    proof {
        assert(forall|k: int| 0 <= k < start ==> t[k] == s@[k]);
        lemma_leading_ws_skip(t, start as int);
        if start < end {
            let u = t.subrange(start as int, t.len() as int);
            assert(u.first() == t[start as int]);
            assert(t[start as int] == s@[start as int]);
            assert(!is_ws_char(u.first()));
            assert(leading_ws_len(u) == 0);
        } else {
            assert(t.subrange(start as int, t.len() as int).len() == 0);
        }
        assert(leading_ws_len(t) == start);
    }
    let r = s.substring_char(start, end);
    proof {
        assert(r@ =~= trim_spec(s@));
    }
    r.to_owned()
}

proof fn lemma_last_token_start(s: Seq<char>, i: int)
    requires
        0 <= i <= s.len(),
        forall|k: int| i <= k < s.len() ==> s[k] != ' ',
        i == 0 || s[i - 1] == ' ',
    ensures
        last_token_start(s) == i,
    decreases s.len(),
{
    if s.len() == 0 {
    } else if i == s.len() {
        assert(s.last() == s[i - 1]);
    } else {
        assert(s.last() == s[s.len() - 1]);
        assert(s.last() != ' ');
        let d = s.drop_last();
        assert(forall|k: int| i <= k < d.len() ==> d[k] == s[k]);
        if i > 0 {
            assert(d[i - 1] == s[i - 1]);
        }
        lemma_last_token_start(d, i);
    }
}

/// The last space-delimited token of `s`, verified against [`last_token`].
pub fn last_token_str(s: &str) -> (r: String)
    ensures
        r@ == last_token(s@),
{
    let len = s.unicode_len();
    let mut i: usize = len;
    while i > 0 && s.get_char(i - 1) != ' '
        invariant
            i <= len,
            len == s@.len(),
            forall|k: int| i <= k < s@.len() ==> s@[k] != ' ',
        decreases i,
    {
        i = i - 1;
    }
    proof {
        lemma_last_token_start(s@, i as int);
    }
    let r = s.substring_char(i, len);
    proof {
        assert(r@ =~= last_token(s@));
    }
    r.to_owned()
}

} // verus!
