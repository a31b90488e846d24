//! Character-level helpers shared by the protocol modules: ASCII case
//! folding, whitespace trimming, splitting, decimal numbers and substring
//! replacement, each stated over the character sequence of a string.

use vstd::prelude::*;
use vstd::string::*;
use vstd::utf8::*;

verus! {

/// `String::push` appends one character to the end of the string.
pub assume_specification[ String::push ](s: &mut String, ch: char)
    ensures
        final(s)@ == old(s)@.push(ch),
;

/// `String::push_str` appends a string slice to the end of the string.
pub assume_specification[ String::push_str ](s: &mut String, string: &str)
    ensures
        final(s)@ == old(s)@ + string@,
;

/// `std::str::from_utf8`: the bytes as a string slice when they are valid
/// UTF-8; the slice then holds exactly those bytes.
#[verifier::external_body]
pub(crate) fn utf8_str(bytes: &[u8]) -> (r: Option<&str>)
    ensures
        r is Some <==> valid_utf8(bytes@),
        r matches Some(s) ==> s.spec_bytes() == bytes@,
{
    std::str::from_utf8(bytes).ok()
}

/// The characters that valid UTF-8 bytes decode to.
pub proof fn lemma_utf8_chars(s: &str, bytes: Seq<u8>)
    requires
        s.spec_bytes() == bytes,
    ensures
        s@ == decode_utf8(bytes),
        valid_utf8(bytes),
{
    encode_utf8_decode_utf8(s@);
    encode_utf8_valid_utf8(s@);
}

/// The ASCII lower-case form of a character; other characters are unchanged.
pub open spec fn spec_lower(c: char) -> char {
    if 'A' <= c && c <= 'Z' {
        ((c as u32) + 32) as char
    } else {
        c
    }
}

/// The ASCII lower-case form of every character of a sequence.
pub open spec fn spec_lower_seq(s: Seq<char>) -> Seq<char> {
    Seq::new(s.len(), |i: int| spec_lower(s[i]))
}

/// Two character sequences are equal up to ASCII case.
pub open spec fn spec_eq_ignore_case(a: Seq<char>, b: Seq<char>) -> bool {
    spec_lower_seq(a) == spec_lower_seq(b)
}

/// Unicode `White_Space` characters, the ones `char::is_whitespace` accepts.
pub open spec fn spec_is_whitespace(c: char) -> bool {
    ||| '\u{9}' <= c && c <= '\u{d}'
    ||| c == ' '
    ||| c == '\u{85}'
    ||| c == '\u{a0}'
    ||| c == '\u{1680}'
    ||| '\u{2000}' <= c && c <= '\u{200a}'
    ||| c == '\u{2028}'
    ||| c == '\u{2029}'
    ||| c == '\u{202f}'
    ||| c == '\u{205f}'
    ||| c == '\u{3000}'
}

/// A sequence without its leading whitespace.
pub open spec fn spec_trim_start(s: Seq<char>) -> Seq<char>
    decreases s.len(),
{
    if s.len() > 0 && spec_is_whitespace(s[0]) {
        spec_trim_start(s.drop_first())
    } else {
        s
    }
}

/// A sequence without its trailing whitespace.
pub open spec fn spec_trim_end(s: Seq<char>) -> Seq<char>
    decreases s.len(),
{
    if s.len() > 0 && spec_is_whitespace(s.last()) {
        spec_trim_end(s.drop_last())
    } else {
        s
    }
}

/// A sequence without leading and trailing whitespace (`str::trim`).
pub open spec fn spec_trim(s: Seq<char>) -> Seq<char> {
    spec_trim_end(spec_trim_start(s))
}

/// The pieces of `cur + s` separated by `sep`, where `cur` is the piece
/// collected so far.
pub open spec fn spec_split_from(cur: Seq<char>, s: Seq<char>, sep: char) -> Seq<Seq<char>>
    decreases s.len(),
{
    if s.len() == 0 {
        seq![cur]
    } else if s[0] == sep {
        seq![cur] + spec_split_from(Seq::empty(), s.drop_first(), sep)
    } else {
        spec_split_from(cur.push(s[0]), s.drop_first(), sep)
    }
}

/// The pieces of `s` between occurrences of `sep` (`str::split` with a `char`):
/// always at least one piece, possibly empty.
pub open spec fn spec_split(s: Seq<char>, sep: char) -> Seq<Seq<char>> {
    spec_split_from(Seq::empty(), s, sep)
}

/// The character of a decimal digit.
pub open spec fn spec_digit_char(d: nat) -> char {
    ((48 + d) as u32) as char
}

/// The decimal representation of a natural number, without leading zeros.
pub open spec fn spec_decimal(n: nat) -> Seq<char>
    decreases n,
{
    if n < 10 {
        seq![spec_digit_char(n)]
    } else {
        spec_decimal(n / 10).push(spec_digit_char(n % 10))
    }
}

/// A character is an ASCII decimal digit.
pub open spec fn spec_is_digit(c: char) -> bool {
    '0' <= c && c <= '9'
}

/// The value of a sequence of decimal digits.
pub open spec fn spec_digits_value(s: Seq<char>) -> nat
    decreases s.len(),
{
    if s.len() == 0 {
        0
    } else {
        spec_digits_value(s.drop_last()) * 10 + ((s.last() as u32) - 48) as nat
    }
}

/// The digits of a number without an optional leading `+`.
pub open spec fn spec_unsigned_digits(s: Seq<char>) -> Seq<char> {
    if s.len() > 0 && s[0] == '+' {
        s.drop_first()
    } else {
        s
    }
}

/// Every character is an ASCII decimal digit.
pub open spec fn spec_all_digits(d: Seq<char>) -> bool {
    forall|i: int| 0 <= i < d.len() ==> spec_is_digit(#[trigger] d[i])
}

/// What `u64::from_str` accepts: an optional `+`, then one or more decimal
/// digits whose value fits in a `u64`.
pub open spec fn spec_parse_u64(s: Seq<char>) -> Option<u64> {
    let digits = spec_unsigned_digits(s);
    if digits.len() > 0 && spec_all_digits(digits) && spec_digits_value(digits) <= u64::MAX {
        Some(spec_digits_value(digits) as u64)
    } else {
        None
    }
}

/// `s` with every non-overlapping occurrence of `from`, scanned from the
/// left, replaced by `to` (`str::replace`). An empty `from` matches before
/// every character and at the end.
pub open spec fn spec_replace(s: Seq<char>, from: Seq<char>, to: Seq<char>) -> Seq<char>
    decreases s.len(),
{
    if from.len() == 0 {
        if s.len() == 0 {
            to
        } else {
            to + seq![s[0]] + spec_replace(s.drop_first(), from, to)
        }
    } else if s.len() < from.len() {
        s
    } else if s.take(from.len() as int) == from {
        to + spec_replace(s.skip(from.len() as int), from, to)
    } else {
        seq![s[0]] + spec_replace(s.drop_first(), from, to)
    }
}

/// The values of a sequence of strings.
pub open spec fn spec_strings(v: Seq<String>) -> Seq<Seq<char>> {
    Seq::new(v.len(), |i: int| v[i]@)
}

/// The characters of a string, in order.
pub fn chars_of(s: &str) -> (out: Vec<char>)
    ensures
        out@ == s@,
{
    let mut out: Vec<char> = Vec::new();
    for c in it: s.chars()
        invariant
            out@ == it.seq().take(it.index() as int),
    {
        out.push(c);
    }
    out
}

/// A string holding the given characters.
pub fn string_of(cs: &[char]) -> (out: String)
    ensures
        out@ == cs@,
{
    let mut out = String::new();
    let mut i: usize = 0;
    while i < cs.len()
        invariant
            i <= cs@.len(),
            out@ == cs@.take(i as int),
        decreases cs@.len() - i,
    {
        out.push(cs[i]);
        i = i + 1;
        assert(out@ =~= cs@.take(i as int));
    }
    assert(cs@.take(cs@.len() as int) =~= cs@);
    out
}

/// An owned copy of a string slice.
pub fn owned(s: &str) -> (out: String)
    ensures
        out@ == s@,
{
    let mut out = String::new();
    out.push_str(s);
    assert(out@ =~= s@);
    out
}

/// The ASCII lower-case form of a character.
pub fn lower(c: char) -> (r: char)
    ensures
        r == spec_lower(c),
{
    if 'A' <= c && c <= 'Z' {
        let b: u8 = c as u8;
        (b + 32) as char
    } else {
        c
    }
}

/// The ASCII lower-case form of a string (`str::to_ascii_lowercase`).
pub fn to_ascii_lowercase(s: &str) -> (out: String)
    ensures
        out@ == spec_lower_seq(s@),
{
    let cs = chars_of(s);
    let mut out = String::new();
    let mut i: usize = 0;
    while i < cs.len()
        invariant
            i <= cs@.len(),
            cs@ == s@,
            out@ == spec_lower_seq(s@).take(i as int),
        decreases cs@.len() - i,
    {
        let c = lower(cs[i]);
        out.push(c);
        i = i + 1;
        assert(out@ =~= spec_lower_seq(s@).take(i as int));
    }
    assert(spec_lower_seq(s@).take(cs@.len() as int) =~= spec_lower_seq(s@));
    out
}

/// Whether two character sequences are equal up to ASCII case.
pub fn chars_eq_ignore_case(a: &[char], b: &[char]) -> (r: bool)
    ensures
        r == spec_eq_ignore_case(a@, b@),
{
    if a.len() != b.len() {
        assert(spec_lower_seq(a@).len() != spec_lower_seq(b@).len());
        return false;
    }
    let mut i: usize = 0;
    while i < a.len()
        invariant
            i <= a@.len(),
            a@.len() == b@.len(),
            forall|k: int| 0 <= k < i ==> spec_lower(a@[k]) == spec_lower(b@[k]),
        decreases a@.len() - i,
    {
        if lower(a[i]) != lower(b[i]) {
            assert(spec_lower_seq(a@)[i as int] != spec_lower_seq(b@)[i as int]);
            return false;
        }
        i = i + 1;
    }
    assert(spec_lower_seq(a@) =~= spec_lower_seq(b@));
    true
}

/// Whether two strings are equal up to ASCII case (`str::eq_ignore_ascii_case`).
pub fn eq_ignore_ascii_case(a: &str, b: &str) -> (r: bool)
    ensures
        r == spec_eq_ignore_case(a@, b@),
{
    let ac = chars_of(a);
    let bc = chars_of(b);
    chars_eq_ignore_case(ac.as_slice(), bc.as_slice())
}

/// Whether a character is Unicode whitespace (`char::is_whitespace`).
pub fn is_whitespace(c: char) -> (r: bool)
    ensures
        r == spec_is_whitespace(c),
{
    ('\u{9}' <= c && c <= '\u{d}') || c == ' ' || c == '\u{85}' || c == '\u{a0}' || c == '\u{1680}'
        || ('\u{2000}' <= c && c <= '\u{200a}') || c == '\u{2028}' || c == '\u{2029}' || c
        == '\u{202f}' || c == '\u{205f}' || c == '\u{3000}'
}

/// The bounds `(i, j)` of `spec_trim(cs)` within `cs`.
pub fn trim_bounds(cs: &[char]) -> (r: (usize, usize))
    ensures
        r.0 <= r.1 <= cs@.len(),
        spec_trim(cs@) == cs@.subrange(r.0 as int, r.1 as int),
{
    let n = cs.len();
    let mut i: usize = 0;
    assert(cs@.skip(0) =~= cs@);
    while i < n && is_whitespace(cs[i])
        invariant
            i <= n == cs@.len(),
            spec_trim_start(cs@) == spec_trim_start(cs@.skip(i as int)),
        decreases n - i,
    {
        assert(cs@.skip(i as int).drop_first() =~= cs@.skip(i + 1));
        i = i + 1;
    }
    let mut j: usize = n;
    assert(cs@.skip(i as int) =~= cs@.subrange(i as int, n as int));
    while j > i && is_whitespace(cs[j - 1])
        invariant
            i <= j <= n == cs@.len(),
            spec_trim_start(cs@) == cs@.subrange(i as int, n as int),
            spec_trim(cs@) == spec_trim_end(cs@.subrange(i as int, j as int)),
        decreases j,
    {
        assert(cs@.subrange(i as int, j as int).drop_last() =~= cs@.subrange(i as int, j - 1));
        j = j - 1;
    }
    (i, j)
}

/// A string slice without leading and trailing whitespace (`str::trim`).
pub fn trim(s: &str) -> (r: &str)
    ensures
        r@ == spec_trim(s@),
{
    let cs = chars_of(s);
    let (i, j) = trim_bounds(cs.as_slice());
    s.substring_char(i, j)
}

proof fn lemma_split_step(cur: Seq<char>, s: Seq<char>, i: int, sep: char)
    requires
        0 <= i < s.len(),
    ensures
        s[i] == sep ==> spec_split_from(cur, s.skip(i), sep) == seq![cur] + spec_split_from(
            Seq::empty(),
            s.skip(i + 1),
            sep,
        ),
        s[i] != sep ==> spec_split_from(cur, s.skip(i), sep) == spec_split_from(
            cur.push(s[i]),
            s.skip(i + 1),
            sep,
        ),
{
    assert(s.skip(i).drop_first() =~= s.skip(i + 1));
}

/// The pieces of a character sequence between occurrences of `sep`.
pub fn split_chars(cs: &[char], sep: char) -> (pieces: Vec<Vec<char>>)
    ensures
        pieces@.len() == spec_split(cs@, sep).len(),
        forall|k: int| 0 <= k < pieces@.len() ==> #[trigger] pieces@[k]@ == spec_split(cs@, sep)[k],
{
    let mut pieces: Vec<Vec<char>> = Vec::new();
    let mut cur: Vec<char> = Vec::new();
    let mut i: usize = 0;
    assert(cs@.skip(0) =~= cs@);
    while i < cs.len()
        invariant
            i <= cs@.len(),
            ({
                let done = Seq::new(pieces@.len(), |k: int| pieces@[k]@);
                done + spec_split_from(cur@, cs@.skip(i as int), sep) == spec_split(cs@, sep)
            }),
        decreases cs@.len() - i,
    {
        let ghost done = Seq::new(pieces@.len(), |k: int| pieces@[k]@);
        proof {
            lemma_split_step(cur@, cs@, i as int, sep);
        }
        if cs[i] == sep {
            let piece = cur;
            cur = Vec::new();
            pieces.push(piece);
            let ghost done2 = Seq::new(pieces@.len(), |k: int| pieces@[k]@);
            assert(done2 =~= done.push(piece@));
            assert(done2 + spec_split_from(cur@, cs@.skip(i + 1), sep) =~= done + (seq![piece@]
                + spec_split_from(Seq::empty(), cs@.skip(i + 1), sep)));
        } else {
            cur.push(cs[i]);
            let ghost done2 = Seq::new(pieces@.len(), |k: int| pieces@[k]@);
            assert(done2 =~= done);
        }
        i = i + 1;
    }
    let ghost done = Seq::new(pieces@.len(), |k: int| pieces@[k]@);
    assert(cs@.skip(i as int) =~= Seq::<char>::empty());
    pieces.push(cur);
    let ghost done2 = Seq::new(pieces@.len(), |k: int| pieces@[k]@);
    assert(done2 =~= spec_split(cs@, sep));
    pieces
}

/// The character of a decimal digit.
pub fn digit_char(d: u8) -> (c: char)
    requires
        d < 10,
    ensures
        c == spec_digit_char(d as nat),
{
    (48u8 + d) as char
}

/// Appends the decimal representation of `n`.
pub fn push_decimal(out: &mut Vec<char>, n: u64)
    ensures
        final(out)@ == old(out)@ + spec_decimal(n as nat),
    decreases n,
{
    if n >= 10 {
        push_decimal(out, n / 10);
    }
    let d: u8 = (n % 10) as u8;
    out.push(digit_char(d));
    assert(out@ =~= old(out)@ + spec_decimal(n as nat));
}

/// The decimal representation of a number (`u64::to_string`).
pub fn decimal(n: u64) -> (out: String)
    ensures
        out@ == spec_decimal(n as nat),
{
    let mut cs: Vec<char> = Vec::new();
    push_decimal(&mut cs, n);
    assert(cs@ =~= spec_decimal(n as nat));
    string_of(cs.as_slice())
}

proof fn lemma_digits_value_monotone(s: Seq<char>, i: int)
    requires
        0 <= i <= s.len(),
        forall|k: int| 0 <= k < s.len() ==> spec_is_digit(#[trigger] s[k]),
    ensures
        spec_digits_value(s.take(i)) <= spec_digits_value(s),
    decreases s.len() - i,
{
    if i < s.len() {
        lemma_digits_value_monotone(s, i + 1);
        assert(s.take(i + 1).drop_last() =~= s.take(i));
    } else {
        assert(s.take(i) =~= s);
    }
}

proof fn lemma_overflow_means_none(digits: Seq<char>, j: int)
    requires
        0 < j <= digits.len(),
        spec_digits_value(digits.take(j)) > u64::MAX,
    ensures
        !(spec_all_digits(digits) && spec_digits_value(digits) <= u64::MAX),
{
    if spec_all_digits(digits) {
        lemma_digits_value_monotone(digits, j);
    }
}

/// Parses a decimal number the way `u64::from_str` does.
pub fn parse_u64(cs: &[char]) -> (r: Option<u64>)
    ensures
        r == spec_parse_u64(cs@),
{
    let start: usize = if cs.len() > 0 && cs[0] == '+' {
        1
    } else {
        0
    };
    let ghost digits = cs@.skip(start as int);
    assert(digits =~= spec_unsigned_digits(cs@));
    if start >= cs.len() {
        return None;
    }
    let mut i: usize = start;
    let mut acc: u64 = 0;
    assert(digits.take(0) =~= Seq::<char>::empty());
    while i < cs.len()
        invariant
            start <= i <= cs@.len(),
            digits == cs@.skip(start as int),
            digits == spec_unsigned_digits(cs@),
            forall|k: int| 0 <= k < i - start ==> spec_is_digit(#[trigger] digits[k]),
            acc as nat == spec_digits_value(digits.take(i - start)),
        decreases cs@.len() - i,
    {
        let c = cs[i];
        if !('0' <= c && c <= '9') {
            assert(digits[i - start] == c);
            assert(!spec_is_digit(digits[i - start]));
            return None;
        }
        let d: u64 = ((c as u32) - 48) as u64;
        assert(digits.take(i + 1 - start).drop_last() =~= digits.take(i - start));
        proof {
            assert forall|k: int| 0 <= k < i + 1 - start implies spec_is_digit(#[trigger] digits[k]) by {
                if k == i - start {
                    assert(digits[k] == c);
                }
            }
        }
        match acc.checked_mul(10) {
            None => {
                proof {
                    lemma_overflow_means_none(digits, i + 1 - start);
                }
                return None;
            },
            Some(m) => match m.checked_add(d) {
                None => {
                    proof {
                        lemma_overflow_means_none(digits, i + 1 - start);
                    }
                    return None;
                },
                Some(v) => {
                    acc = v;
                },
            },
        }
        i = i + 1;
    }
    assert(digits.take(i - start) =~= digits);
    Some(acc)
}

/// Whether `pat` occurs in `cs` at position `i`.
pub fn occurs_at(cs: &[char], i: usize, pat: &[char]) -> (r: bool)
    requires
        i <= cs@.len(),
    ensures
        r == (pat@.len() <= cs@.len() - i && cs@.skip(i as int).take(pat@.len() as int) == pat@),
{
    if pat.len() > cs.len() - i {
        return false;
    }
    let mut k: usize = 0;
    while k < pat.len()
        invariant
            k <= pat@.len() <= cs@.len() - i,
            i + pat.len() <= cs.len(),
            forall|q: int| 0 <= q < k ==> cs@[i + q] == pat@[q],
        decreases pat@.len() - k,
    {
        if cs[i + k] != pat[k] {
            assert(cs@.skip(i as int).take(pat@.len() as int)[k as int] != pat@[k as int]);
            return false;
        }
        k = k + 1;
    }
    assert(cs@.skip(i as int).take(pat@.len() as int) =~= pat@);
    true
}

proof fn lemma_replace_step(s: Seq<char>, from: Seq<char>, to: Seq<char>, i: int)
    requires
        0 <= i < s.len(),
        from.len() > 0,
    ensures
        (from.len() <= s.len() - i && s.skip(i).take(from.len() as int) == from) ==> spec_replace(
            s.skip(i),
            from,
            to,
        ) == to + spec_replace(s.skip(i + from.len()), from, to),
        !(from.len() <= s.len() - i && s.skip(i).take(from.len() as int) == from) ==> spec_replace(
            s.skip(i),
            from,
            to,
        ) == seq![s[i]] + spec_replace(s.skip(i + 1), from, to),
{
    let t = s.skip(i);
    if from.len() <= t.len() {
        assert(t.skip(from.len() as int) =~= s.skip(i + from.len()));
    }
    assert(t.drop_first() =~= s.skip(i + 1));
    if t.len() < from.len() {
        lemma_replace_short(t.drop_first(), from, to);
        assert(t =~= seq![s[i]] + t.drop_first());
    }
}

proof fn lemma_replace_short(s: Seq<char>, from: Seq<char>, to: Seq<char>)
    requires
        s.len() < from.len(),
    ensures
        spec_replace(s, from, to) == s,
{
}

/// `s` with every occurrence of `from` replaced by `to` (`str::replace`).
pub fn replace_all(s: &str, from: &str, to: &str) -> (out: String)
    ensures
        out@ == spec_replace(s@, from@, to@),
{
    let sc = chars_of(s);
    let fc = chars_of(from);
    let n = sc.len();
    let mut out = String::new();
    let mut i: usize = 0;
    assert(s@.skip(0) =~= s@);
    if fc.len() == 0 {
        while i < n
            invariant
                i <= n == s@.len(),
                sc@ == s@,
                from@.len() == 0,
                out@ + spec_replace(s@.skip(i as int), from@, to@) == spec_replace(s@, from@, to@),
            decreases n - i,
        {
            proof {
                assert(s@.skip(i as int).drop_first() =~= s@.skip(i + 1));
            }
            let ghost before = out@;
            out.push_str(to);
            out.push(sc[i]);
            assert(out@ =~= before + to@ + seq![s@[i as int]]);
            i = i + 1;
        }
        assert(s@.skip(i as int) =~= Seq::<char>::empty());
        out.push_str(to);
    } else {
        while i < n
            invariant
                i <= n == s@.len(),
                sc@ == s@,
                fc@ == from@,
                from@.len() > 0,
                out@ + spec_replace(s@.skip(i as int), from@, to@) == spec_replace(s@, from@, to@),
            decreases n - i,
        {
            proof {
                lemma_replace_step(s@, from@, to@, i as int);
            }
            let ghost before = out@;
            if occurs_at(sc.as_slice(), i, fc.as_slice()) {
                out.push_str(to);
                i = i + fc.len();
            } else {
                out.push(sc[i]);
                assert(out@ =~= before + seq![s@[i as int]]);
                i = i + 1;
            }
        }
        assert(s@.skip(i as int) =~= Seq::<char>::empty());
    }
    assert(spec_replace(Seq::<char>::empty(), from@, to@) == (if from@.len() == 0 {
        to@
    } else {
        Seq::<char>::empty()
    }));
    assert(out@ =~= spec_replace(s@, from@, to@));
    out
}

} // verus!
