//! Text helpers: decimal and hexadecimal rendering and decimal parsing.

use vstd::prelude::*;
use vstd::std_specs::iter::IteratorSpec;

verus! {

/// `String::push`: appends one character.
#[verifier::external_body]
pub(crate) fn string_push(s: &mut String, c: char)
    ensures
        final(s)@ == old(s)@.push(c),
{
    s.push(c);
}

/// The characters of `s`, in order.
pub fn chars_vec(s: &str) -> (r: Vec<char>)
    ensures
        r@ == s@,
{
    let mut it = s.chars();
    let mut out: Vec<char> = Vec::new();
    proof {
        vstd::string::axiom_spec_iter(s);
    }
    loop
        invariant
            out@ + IteratorSpec::remaining(&it) == s@,
            it.obeys_prophetic_iter_laws(),
        ensures
            out@ == s@,
        decreases s@.len() - out@.len(),
    {
        let ghost before = it;
        match it.next() {
            Some(c) => {
                proof {
                    vstd::string::next_postcondition(&before, &it, Some(c));
                    assert(out@.push(c) + IteratorSpec::remaining(&it) =~= out@ + IteratorSpec::remaining(&before));
                }
                out.push(c);
            },
            None => {
                proof {
                    vstd::string::next_postcondition(&before, &it, None);
                    assert(out@ =~= s@);
                }
                break;
            },
        }
    }
    out
}

// ---------------------------------------------------------------------------
// Lines and words.
// ---------------------------------------------------------------------------

/// White space as `char::is_whitespace` defines it: the characters with the
/// Unicode `White_Space` property.
pub open spec fn is_white_space(c: char) -> bool {
    ||| c == '\t'
    ||| c == '\n'
    ||| c == '\u{0B}'
    ||| c == '\u{0C}'
    ||| c == '\r'
    ||| c == ' '
    ||| c == '\u{85}'
    ||| c == '\u{A0}'
    ||| c == '\u{1680}'
    ||| ('\u{2000}' <= c && c <= '\u{200A}')
    ||| c == '\u{2028}'
    ||| c == '\u{2029}'
    ||| c == '\u{202F}'
    ||| c == '\u{205F}'
    ||| c == '\u{3000}'
}

/// Whether `c` is white space.
pub fn is_white_space_char(c: char) -> (r: bool)
    ensures
        r == is_white_space(c),
{
    c == '\t' || c == '\n' || c == '\u{0B}' || c == '\u{0C}' || c == '\r' || c == ' ' || c
        == '\u{85}' || c == '\u{A0}' || c == '\u{1680}' || ('\u{2000}' <= c && c <= '\u{200A}')
        || c == '\u{2028}' || c == '\u{2029}' || c == '\u{202F}' || c == '\u{205F}' || c
        == '\u{3000}'
}

/// `s` without its leading white space.
pub open spec fn trim_start(s: Seq<char>) -> Seq<char>
    decreases s.len(),
{
    if s.len() > 0 && is_white_space(s[0]) {
        trim_start(s.drop_first())
    } else {
        s
    }
}

/// The words of `s`: its maximal runs of characters that are not white
/// space, in order (what `str::split_whitespace` yields).
pub open spec fn words(s: Seq<char>) -> Seq<Seq<char>>
    decreases s.len(),
{
    if s.len() == 0 {
        seq![]
    } else {
        let w = words(s.drop_last());
        let c = s.last();
        if is_white_space(c) {
            w
        } else if s.len() >= 2 && !is_white_space(s[s.len() - 2]) {
            w.drop_last().push(w.last().push(c))
        } else {
            w.push(seq![c])
        }
    }
}

/// The pieces of `s` between line feeds; a text without line feeds is one
/// piece, and a trailing line feed ends with an empty piece.
pub open spec fn split_lines(s: Seq<char>) -> Seq<Seq<char>>
    decreases s.len(),
{
    if s.len() == 0 {
        seq![seq![]]
    } else {
        let g = split_lines(s.drop_last());
        if s.last() == '\n' {
            g.push(seq![])
        } else {
            g.drop_last().push(g.last().push(s.last()))
        }
    }
}

/// The string of the characters `v`.
pub fn string_of_chars(v: &Vec<char>) -> (r: String)
    ensures
        r@ == v@,
{
    let mut s = String::new();
    let mut i: usize = 0;
    while i < v.len()
        invariant
            i <= v.len(),
            s@ == v@.subrange(0, i as int),
        decreases v.len() - i,
    {
        string_push(&mut s, v[i]);
        assert(v@.subrange(0, i + 1) =~= v@.subrange(0, i as int).push(v@[i as int]));
        i = i + 1;
    }
    assert(v@.subrange(0, i as int) =~= v@);
    s
}

/// The words of `line`.
pub fn words_of(line: &Vec<char>) -> (r: Vec<Vec<char>>)
    ensures
        r@.map_values(|w: Vec<char>| w@) == words(line@),
{
    let mut out: Vec<Vec<char>> = Vec::new();
    let mut cur: Vec<char> = Vec::new();
    let mut i: usize = 0;
    while i < line.len()
        invariant
            i <= line.len(),
            cur@.len() > 0 <==> (i > 0 && !is_white_space(line@[i - 1])),
            words(line@.subrange(0, i as int)) == (if cur@.len() > 0 {
                out@.map_values(|w: Vec<char>| w@).push(cur@)
            } else {
                out@.map_values(|w: Vec<char>| w@)
            }),
        decreases line.len() - i,
    {
        let c = line[i];
        let ghost prefix = line@.subrange(0, i as int);
        let ghost next = line@.subrange(0, i + 1);
        let ghost done = out@.map_values(|w: Vec<char>| w@);
        assert(next.drop_last() =~= prefix);
        assert(next.last() == c);
        if is_white_space_char(c) {
            if cur.len() > 0 {
                let word = cur;
                cur = Vec::new();
                out.push(word);
                assert(out@.map_values(|w: Vec<char>| w@) =~= done.push(word@));
            }
        } else {
            let ghost before = cur@;
            cur.push(c);
            proof {
                if before.len() > 0 {
                    assert(next[next.len() - 2] == line@[i - 1]);
                    assert(done.push(before).drop_last() =~= done);
                    assert(words(next) == done.push(before.push(c)));
                } else {
                    if i > 0 {
                        assert(next[next.len() - 2] == line@[i - 1]);
                    }
                    assert(before.push(c) =~= seq![c]);
                    assert(words(next) == done.push(seq![c]));
                }
            }
        }
        i = i + 1;
    }
    assert(line@.subrange(0, i as int) =~= line@);
    if cur.len() > 0 {
        let ghost done = out@.map_values(|w: Vec<char>| w@);
        out.push(cur);
        assert(out@.map_values(|w: Vec<char>| w@) =~= done.push(out@[out@.len() - 1]@));
    }
    out
}

/// The upper-case hexadecimal digit of a value below sixteen.
pub open spec fn hex_char(n: nat) -> char {
    if n == 0 { '0' } else if n == 1 { '1' } else if n == 2 { '2' } else if n == 3 { '3' }
    else if n == 4 { '4' } else if n == 5 { '5' } else if n == 6 { '6' } else if n == 7 { '7' }
    else if n == 8 { '8' } else if n == 9 { '9' } else if n == 10 { 'A' } else if n == 11 { 'B' }
    else if n == 12 { 'C' } else if n == 13 { 'D' } else if n == 14 { 'E' } else { 'F' }
}

/// The value of a decimal digit character, when it is one.
pub open spec fn digit_value(c: char) -> Option<nat> {
    if c == '0' { Some(0) } else if c == '1' { Some(1) } else if c == '2' { Some(2) }
    else if c == '3' { Some(3) } else if c == '4' { Some(4) } else if c == '5' { Some(5) }
    else if c == '6' { Some(6) } else if c == '7' { Some(7) } else if c == '8' { Some(8) }
    else if c == '9' { Some(9) } else { None }
}

pub open spec fn is_digit(c: char) -> bool {
    digit_value(c) is Some
}

pub open spec fn all_digits(s: Seq<char>) -> bool {
    forall|i: int| 0 <= i < s.len() ==> #[trigger] is_digit(s[i])
}

/// The number that a string of decimal digits denotes.
pub open spec fn digits_value(s: Seq<char>) -> nat
    decreases s.len(),
{
    if s.len() == 0 {
        0
    } else {
        digits_value(s.drop_last()) * 10 + digit_value(s.last()).unwrap_or(0)
    }
}

/// The shortest decimal rendering of a natural number.
pub open spec fn dec_digits(n: nat) -> Seq<char>
    decreases n,
{
    if n < 10 {
        seq![hex_char(n)]
    } else {
        dec_digits(n / 10).push(hex_char(n % 10))
    }
}

/// Two upper-case hexadecimal digits of a byte.
pub open spec fn hex_byte(b: u8) -> Seq<char> {
    seq![hex_char((b / 16) as nat), hex_char((b % 16) as nat)]
}

/// What `str::parse::<u16>` accepts: an optional `+`, then one or more ASCII
/// digits whose value fits in 16 bits.
pub open spec fn parse_u16_spec(s: Seq<char>) -> Option<u16> {
    let t = if s.len() > 0 && s[0] == '+' { s.drop_first() } else { s };
    if t.len() == 0 || !all_digits(t) || digits_value(t) > 65535 {
        None
    } else {
        Some(digits_value(t) as u16)
    }
}

pub proof fn lemma_digit_of_hex(k: nat)
    requires
        k < 10,
    ensures
        digit_value(hex_char(k)) == Some(k),
        is_digit(hex_char(k)),
{
    assert(k == 0 || k == 1 || k == 2 || k == 3 || k == 4 || k == 5 || k == 6 || k == 7 || k == 8
        || k == 9);
}

pub proof fn lemma_dec_digits_props(n: nat)
    ensures
        all_digits(dec_digits(n)),
        dec_digits(n).len() >= 1,
        digits_value(dec_digits(n)) == n,
    decreases n,
{
    if n < 10 {
        lemma_digit_of_hex(n);
        let s = dec_digits(n);
        assert(s.drop_last() =~= Seq::<char>::empty());
        assert(digits_value(s) == digits_value(s.drop_last()) * 10 + n);
    } else {
        lemma_digit_of_hex(n % 10);
        lemma_dec_digits_props(n / 10);
        let s = dec_digits(n);
        assert(s.drop_last() =~= dec_digits(n / 10));
        assert(s.last() == hex_char(n % 10));
        assert(digits_value(s) == digits_value(dec_digits(n / 10)) * 10 + n % 10);
        assert(n == (n / 10) * 10 + n % 10) by (nonlinear_arith);
        assert forall|i: int| 0 <= i < s.len() implies #[trigger] is_digit(s[i]) by {
            if i < s.len() - 1 {
                assert(s[i] == dec_digits(n / 10)[i]);
            }
        }
    }
}

/// Distinct numbers have distinct decimal renderings.
pub proof fn lemma_dec_digits_injective(a: nat, b: nat)
    ensures
        dec_digits(a) == dec_digits(b) ==> a == b,
{
    lemma_dec_digits_props(a);
    lemma_dec_digits_props(b);
}

pub proof fn lemma_digits_value_monotone(s: Seq<char>, k: int)
    requires
        0 <= k <= s.len(),
        all_digits(s),
    ensures
        digits_value(s.subrange(0, k)) <= digits_value(s),
    decreases s.len() - k,
{
    if k < s.len() {
        lemma_digits_value_monotone(s, k + 1);
        let p = s.subrange(0, k + 1);
        assert(p.drop_last() =~= s.subrange(0, k));
        assert(is_digit(s[k]));
    } else {
        assert(s.subrange(0, k) =~= s);
    }
}

fn hex_char_exec(n: u8) -> (c: char)
    requires
        n < 16,
    ensures
        c == hex_char(n as nat),
{
    match n {
        0 => '0', 1 => '1', 2 => '2', 3 => '3', 4 => '4', 5 => '5', 6 => '6', 7 => '7',
        8 => '8', 9 => '9', 10 => 'A', 11 => 'B', 12 => 'C', 13 => 'D', 14 => 'E', _ => 'F',
    }
}

fn digit_value_exec(c: char) -> (r: Option<u8>)
    ensures
        r matches Some(d) ==> digit_value(c) == Some(d as nat),
        r is None ==> digit_value(c) is None,
{
    match c {
        '0' => Some(0), '1' => Some(1), '2' => Some(2), '3' => Some(3), '4' => Some(4),
        '5' => Some(5), '6' => Some(6), '7' => Some(7), '8' => Some(8), '9' => Some(9),
        _ => None,
    }
}

/// Appends the decimal rendering of `n`.
pub fn push_decimal(s: &mut String, n: u64)
    ensures
        final(s)@ == old(s)@ + dec_digits(n as nat),
    decreases n,
{
    if n >= 10 {
        push_decimal(s, n / 10);
    }
    let c = hex_char_exec((n % 10) as u8);
    string_push(s, c);
    proof {
        if n < 10 {
            assert(dec_digits(n as nat) =~= seq![hex_char(n as nat)]);
        }
    }
}

/// Appends the two upper-case hexadecimal digits of `b`.
pub fn push_hex_byte(s: &mut String, b: u8)
    ensures
        final(s)@ == old(s)@ + hex_byte(b),
{
    let hi = hex_char_exec(b / 16);
    let lo = hex_char_exec(b % 16);
    string_push(s, hi);
    string_push(s, lo);
}

/// Parses a decimal `u16` the way `str::parse::<u16>` does.
pub fn parse_u16(s: &str) -> (r: Option<u16>)
    ensures
        r == parse_u16_spec(s@),
{
    let chars = chars_vec(s);
    let len = chars.len();
    let mut start: usize = 0;
    if len > 0 && chars[0] == '+' {
        start = 1;
    }
    let ghost t = if s@.len() > 0 && s@[0] == '+' { s@.drop_first() } else { s@ };
    assert(t =~= s@.subrange(start as int, s@.len() as int));
    if start >= len {
        return None;
    }
    let mut value: u32 = 0;
    let mut i: usize = start;
    while i < len
        invariant
            t == (if s@.len() > 0 && s@[0] == '+' { s@.drop_first() } else { s@ }),
            start < len,
            start <= i <= len,
            len == s@.len(),
            chars@ == s@,
            t =~= s@.subrange(start as int, len as int),
            all_digits(s@.subrange(start as int, i as int)),
            value as nat == digits_value(s@.subrange(start as int, i as int)),
            value <= 65535,
        decreases len - i,
    {
        let c = chars[i];
        match digit_value_exec(c) {
            None => {
                assert(!is_digit(t[i - start]));
                return None;
            },
            Some(d) => {
                let ghost prev = s@.subrange(start as int, i as int);
                let ghost next = s@.subrange(start as int, i + 1);
                assert(next.drop_last() =~= prev);
                value = value * 10 + d as u32;
                i = i + 1;
                if value > 65535 {
                    proof {
                        if all_digits(t) {
                            lemma_digits_value_monotone(t, (i - start) as int);
                            assert(t.subrange(0, (i - start) as int) =~= next);
                        }
                    }
                    return None;
                }
            },
        }
    }
    assert(s@.subrange(start as int, i as int) =~= t);
    Some(value as u16)
}

} // verus!
