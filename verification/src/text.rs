//! Number-to-text rendering used by the display helpers.

use vstd::prelude::*;
use vstd::string::*;

verus! {

/// The character of a digit below 16 (lowercase for 10..15).
pub open spec fn digit_char(d: nat) -> char {
    if d < 10 { ((d + 48) as u8) as char } else { ((d + 87) as u8) as char }
}

/// Digits of `n` in base `b` (2..=16), most significant first, no leading zeros.
pub open spec fn digits(n: nat, b: nat) -> Seq<char>
    decreases n,
{
    if b < 2 || n < b {
        seq![digit_char(n)]
    } else {
        proof { vstd::arithmetic::div_mod::lemma_div_decreases(n as int, b as int); }
        digits(n / b, b).push(digit_char(n % b))
    }
}

/// The text in lower case, as `str::to_lowercase` gives it.
pub uninterp spec fn lowercase_text(s: Seq<char>) -> Seq<char>;

/// Calls `str::to_lowercase`. Lower-casing is a function of the text alone;
/// its result is named `lowercase_text`, not described.
#[verifier::external_body]
pub(crate) fn lowercase(s: &str) -> (r: String)
    ensures
        r@ == lowercase_text(s@),
{
    s.to_lowercase()
}

/// Appends one character, by `String::push`.
#[verifier::external_body]
pub(crate) fn push_char(s: &mut String, c: char)
    ensures
        final(s)@ == old(s)@.push(c),
{
    s.push(c);
}

/// The text of one digit.
pub fn digit_str(d: u64) -> (s: &'static str)
    requires
        d < 16,
    ensures
        s@ == seq![digit_char(d as nat)],
{
    match d {
        0 => { proof { reveal_strlit("0"); } "0" },
        1 => { proof { reveal_strlit("1"); } "1" },
        2 => { proof { reveal_strlit("2"); } "2" },
        3 => { proof { reveal_strlit("3"); } "3" },
        4 => { proof { reveal_strlit("4"); } "4" },
        5 => { proof { reveal_strlit("5"); } "5" },
        6 => { proof { reveal_strlit("6"); } "6" },
        7 => { proof { reveal_strlit("7"); } "7" },
        8 => { proof { reveal_strlit("8"); } "8" },
        9 => { proof { reveal_strlit("9"); } "9" },
        10 => { proof { reveal_strlit("a"); } "a" },
        11 => { proof { reveal_strlit("b"); } "b" },
        12 => { proof { reveal_strlit("c"); } "c" },
        13 => { proof { reveal_strlit("d"); } "d" },
        14 => { proof { reveal_strlit("e"); } "e" },
        _ => { proof { reveal_strlit("f"); } "f" },
    }
}

/// Appends the digits of `n` in base `b`.
pub fn push_digits(s: &mut String, n: u64, b: u64)
    requires
        2 <= b <= 16,
    ensures
        final(s)@ == old(s)@ + digits(n as nat, b as nat),
    decreases n,
{
    let ghost s0 = s@;
    if n >= b {
        proof { vstd::arithmetic::div_mod::lemma_div_decreases(n as int, b as int); }
        push_digits(s, n / b, b);
    }
    let ghost s1 = s@;
    s.append(digit_str(n % b));
    proof {
        if n >= b {
            assert(digits(n as nat, b as nat) == digits((n / b) as nat, b as nat).push(digit_char((n % b) as nat)));
            assert(s@ =~= s0 + digits(n as nat, b as nat));
        } else {
            vstd::arithmetic::div_mod::lemma_small_mod(n as nat, b as nat);
            assert(s@ =~= s0 + digits(n as nat, b as nat));
        }
    }
}

/// Decimal text of an unsigned number.
pub fn u64_to_dec(n: u64) -> (s: String)
    ensures
        s@ == digits(n as nat, 10),
{
    let mut s = String::new();
    push_digits(&mut s, n, 10);
    s
}

/// Decimal text of a signed number, with a leading '-' when negative.
pub open spec fn signed_dec(n: int) -> Seq<char> {
    if n < 0 { seq!['-'] + digits((-n) as nat, 10) } else { digits(n as nat, 10) }
}

/// Decimal text of a signed number.
pub fn i64_to_dec(n: i64) -> (s: String)
    ensures
        s@ == signed_dec(n as int),
{
    let mut s = String::new();
    if n < 0 {
        s.append("-");
        proof { reveal_strlit("-"); }
        let m: u64 = if n == i64::MIN { 0x8000_0000_0000_0000u64 } else { (-n) as u64 };
        push_digits(&mut s, m, 10);
    } else {
        push_digits(&mut s, n as u64, 10);
    }
    s
}

/// `0x` followed by the lowercase hexadecimal digits of `n`.
pub fn u64_to_hex_prefixed(n: u64) -> (s: String)
    ensures
        s@ == seq!['0', 'x'] + digits(n as nat, 16),
{
    let mut s = String::new();
    s.append("0x");
    proof { reveal_strlit("0x"); }
    push_digits(&mut s, n, 16);
    s
}


/// Two lowercase hexadecimal digits of a byte followed by a space.
pub open spec fn hex_byte_spaced(b: u8) -> Seq<char> {
    seq![digit_char(b as nat / 16), digit_char(b as nat % 16), ' ']
}

/// `hex_byte_spaced` of each of the first `n` bytes, in order.
pub open spec fn hex_bytes(data: Seq<u8>, n: nat) -> Seq<char>
    decreases n,
{
    if n == 0 { Seq::empty() } else { hex_bytes(data, (n - 1) as nat) + hex_byte_spaced(data[n - 1]) }
}

/// A hex dump of at most the first 64 bytes, then "..." when there are more.
pub open spec fn hex_preview_text(data: Seq<u8>) -> Seq<char> {
    if data.len() > 64 {
        hex_bytes(data, 64) + seq!['.', '.', '.']
    } else {
        hex_bytes(data, data.len())
    }
}

/// Hex-dumps up to the first 64 bytes of a payload, for protocol debugging.
pub fn hex_preview(data: &[u8]) -> (s: String)
    ensures
        s@ == hex_preview_text(data@),
{
    let take = if data.len() < 64 { data.len() } else { 64 };
    let mut s = String::new();
    let mut i: usize = 0;
    while i < take
        invariant
            i <= take,
            take <= data@.len(),
            s@ == hex_bytes(data@, i as nat),
        decreases take - i,
    {
        let b = data[i];
        s.append(digit_str((b / 16) as u64));
        s.append(digit_str((b % 16) as u64));
        s.append(" ");
        proof { reveal_strlit(" "); }
        assert(s@ =~= hex_bytes(data@, (i + 1) as nat));
        i = i + 1;
    }
    if data.len() > take {
        s.append("...");
        proof { reveal_strlit("..."); }
    }
    s
}

/// `s` without its leading NUL characters.
pub open spec fn trim_start_nul(s: Seq<char>) -> Seq<char>
    decreases s.len(),
{
    if s.len() > 0 && s[0] == '\0' { trim_start_nul(s.drop_first()) } else { s }
}

/// `s` without its trailing NUL characters.
pub open spec fn trim_end_nul(s: Seq<char>) -> Seq<char>
    decreases s.len(),
{
    if s.len() > 0 && s.last() == '\0' { trim_end_nul(s.drop_last()) } else { s }
}

/// `s` without NUL characters at either end.
pub open spec fn trim_nul(s: Seq<char>) -> Seq<char> {
    trim_end_nul(trim_start_nul(s))
}

proof fn lemma_trim_start_from(s: Seq<char>, i: int)
    requires
        0 <= i <= s.len(),
        forall|k: int| 0 <= k < i ==> s[k] == '\0',
    ensures
        trim_start_nul(s) == trim_start_nul(s.subrange(i, s.len() as int)),
    decreases i,
{
    if i > 0 {
        assert(s.drop_first() =~= s.subrange(1, s.len() as int));
        lemma_trim_start_from(s.drop_first(), i - 1);
        assert(s.drop_first().subrange(i - 1, s.drop_first().len() as int) =~= s.subrange(i, s.len() as int));
    } else {
        assert(s.subrange(0, s.len() as int) =~= s);
    }
}

proof fn lemma_trim_end_to(s: Seq<char>, j: int)
    requires
        0 <= j <= s.len(),
        forall|k: int| j <= k < s.len() ==> s[k] == '\0',
    ensures
        trim_end_nul(s) == trim_end_nul(s.subrange(0, j)),
    decreases s.len() - j,
{
    if j < s.len() {
        assert(s.drop_last() =~= s.subrange(0, s.len() - 1));
        lemma_trim_end_to(s.drop_last(), j);
        assert(s.drop_last().subrange(0, j) =~= s.subrange(0, j));
    } else {
        assert(s.subrange(0, j) =~= s);
    }
}

/// `s` with NUL characters removed from both ends, as `str::trim_matches('\0')`.
pub fn trim_nul_str(s: &str) -> (r: String)
    ensures
        r@ == trim_nul(s@),
{
    let n = s.unicode_len();
    let mut i: usize = 0;
    while i < n && s.get_char(i) == '\0'
        invariant
            n == s@.len(),
            i <= n,
            forall|k: int| 0 <= k < i ==> s@[k] == '\0',
        decreases n - i,
    {
        i = i + 1;
    }
    let mut j: usize = n;
    while j > i && s.get_char(j - 1) == '\0'
        invariant
            n == s@.len(),
            i <= j <= n,
            forall|k: int| j <= k < n ==> s@[k] == '\0',
        decreases j,
    {
        j = j - 1;
    }
    let t = s.substring_char(i, j);
    proof {
        lemma_trim_start_from(s@, i as int);
        let rest = s@.subrange(i as int, n as int);
        assert(i == n || rest[0] != '\0');
        assert(trim_start_nul(rest) == rest);
        lemma_trim_end_to(rest, (j - i) as int);
        assert(rest.subrange(0, (j - i) as int) =~= s@.subrange(i as int, j as int));
        let mid = s@.subrange(i as int, j as int);
        assert(j == i || mid.last() != '\0');
        assert(trim_end_nul(mid) == mid);
    }
    String::from_str(t)
}

} // verus!
verus! {

/// Unicode `White_Space`, as `char::is_whitespace` takes it.
pub open spec fn is_white_space(c: char) -> bool {
    let v = c as u32;
    (9 <= v <= 13) || v == 32 || v == 0x85 || v == 0xA0 || v == 0x1680 || (0x2000 <= v <= 0x200A)
        || v == 0x2028 || v == 0x2029 || v == 0x202F || v == 0x205F || v == 0x3000
}

/// The text without white space at its start.
pub open spec fn trim_white_start(s: Seq<char>) -> Seq<char>
    decreases s.len(),
{
    if s.len() > 0 && is_white_space(s[0]) { trim_white_start(s.drop_first()) } else { s }
}

/// The text without white space at its end.
pub open spec fn trim_white_end(s: Seq<char>) -> Seq<char>
    decreases s.len(),
{
    if s.len() > 0 && is_white_space(s.last()) { trim_white_end(s.drop_last()) } else { s }
}

/// The text without any leading `0x` prefixes.
pub open spec fn strip_hex_prefixes(s: Seq<char>) -> Seq<char>
    decreases s.len(),
{
    if s.len() >= 2 && s[0] == '0' && s[1] == 'x' { strip_hex_prefixes(s.subrange(2, s.len() as int)) } else { s }
}

/// The value of a hexadecimal digit (either case), or -1.
pub open spec fn hex_digit_value(c: char) -> int {
    if '0' <= c && c <= '9' {
        c as int - '0' as int
    } else if 'a' <= c && c <= 'f' {
        c as int - 'a' as int + 10
    } else if 'A' <= c && c <= 'F' {
        c as int - 'A' as int + 10
    } else {
        -1
    }
}

/// Every character is a hexadecimal digit.
pub open spec fn all_hex(s: Seq<char>) -> bool {
    forall|i: int| 0 <= i < s.len() ==> hex_digit_value(#[trigger] s[i]) >= 0
}

/// The value of a string of hexadecimal digits.
pub open spec fn hex_value(s: Seq<char>) -> int
    decreases s.len(),
{
    if s.len() == 0 { 0 } else { hex_value(s.drop_last()) * 16 + hex_digit_value(s.last()) }
}

/// `u64::from_str_radix(s, 16)`: an optional `+`, then at least one
/// hexadecimal digit, the value fitting in 64 bits.
pub open spec fn radix16(s: Seq<char>) -> Option<u64> {
    let body = if s.len() > 0 && s[0] == '+' { s.drop_first() } else { s };
    if body.len() > 0 && all_hex(body) && hex_value(body) <= u64::MAX {
        Some(hex_value(body) as u64)
    } else {
        None
    }
}

/// A uid typed as hex: white space around it and `0x` prefixes are ignored.
pub open spec fn uid_of_text(s: Seq<char>) -> Option<u64> {
    radix16(strip_hex_prefixes(trim_white_end(trim_white_start(s))))
}

/// A string of digits is worth at least any of its prefixes.
pub proof fn lemma_hex_value_prefix(s: Seq<char>, k: int)
    requires
        all_hex(s),
        0 <= k <= s.len(),
    ensures
        hex_value(s.take(k)) <= hex_value(s),
        0 <= hex_value(s),
    decreases s.len(),
{
    if s.len() > 0 {
        assert(all_hex(s.drop_last())) by {
            assert forall|i: int| 0 <= i < s.drop_last().len() implies hex_digit_value(#[trigger] s.drop_last()[i]) >= 0 by {
                assert(s.drop_last()[i] == s[i]);
            }
        }
        assert(hex_digit_value(s[s.len() - 1]) >= 0);
        if k == s.len() {
            assert(s.take(k) =~= s);
            lemma_hex_value_prefix(s.drop_last(), 0);
        } else {
            lemma_hex_value_prefix(s.drop_last(), k);
            assert(s.drop_last().take(k) =~= s.take(k));
        }
    } else {
        assert(s.take(k) =~= s);
    }
}

/// The digit value of a character.
fn hex_digit(c: char) -> (r: i32)
    ensures
        r == hex_digit_value(c),
{
    if '0' <= c && c <= '9' {
        (c as u32 - '0' as u32) as i32
    } else if 'a' <= c && c <= 'f' {
        (c as u32 - 'a' as u32 + 10) as i32
    } else if 'A' <= c && c <= 'F' {
        (c as u32 - 'A' as u32 + 10) as i32
    } else {
        -1
    }
}

/// Reads a uid typed in hexadecimal; `None` where it is not one.
pub fn parse_uid_hex(s: &str) -> (r: Option<u64>)
    ensures
        r == uid_of_text(s@),
{
    let n = s.unicode_len();
    let mut i: usize = 0;
    assert(s@.subrange(0, n as int) =~= s@);
    while i < n && is_white(s.get_char(i))
        invariant
            n == s@.len(),
            i <= n,
            trim_white_start(s@) == trim_white_start(s@.subrange(i as int, n as int)),
        decreases n - i,
    {
        assert(s@.subrange(i + 1, n as int) =~= s@.subrange(i as int, n as int).drop_first());
        i = i + 1;
    }
    assert(trim_white_start(s@) == s@.subrange(i as int, n as int));
    let mut j: usize = n;
    while j > i && is_white(s.get_char(j - 1))
        invariant
            n == s@.len(),
            i <= j <= n,
            trim_white_end(s@.subrange(i as int, n as int)) == trim_white_end(s@.subrange(i as int, j as int)),
        decreases j,
    {
        assert(s@.subrange(i as int, j - 1) =~= s@.subrange(i as int, j as int).drop_last());
        j = j - 1;
    }
    assert(trim_white_end(s@.subrange(i as int, n as int)) == s@.subrange(i as int, j as int));
    while j - i >= 2 && s.get_char(i) == '0' && s.get_char(i + 1) == 'x'
        invariant
            n == s@.len(),
            i <= j <= n,
            strip_hex_prefixes(trim_white_end(trim_white_start(s@))) == strip_hex_prefixes(s@.subrange(i as int, j as int)),
        decreases j - i,
    {
        assert(s@.subrange(i + 2, j as int) =~= s@.subrange(i as int, j as int).subrange(2, (j - i) as int));
        i = i + 2;
    }
    let ghost t = s@.subrange(i as int, j as int);
    assert(strip_hex_prefixes(trim_white_end(trim_white_start(s@))) == t);
    if i < j && s.get_char(i) == '+' {
        assert(s@.subrange(i + 1, j as int) =~= t.drop_first());
        i = i + 1;
    }
    let ghost body = s@.subrange(i as int, j as int);
    assert(body == (if t.len() > 0 && t[0] == '+' { t.drop_first() } else { t }));
    if i == j {
        return None;
    }
    let mut v: u64 = 0;
    let mut k: usize = i;
    assert(uid_of_text(s@) == (if body.len() > 0 && all_hex(body) && hex_value(body) <= u64::MAX {
        Some(hex_value(body) as u64)
    } else {
        None
    }));
    assert(body.take(0) =~= Seq::<char>::empty());
    while k < j
        invariant
            uid_of_text(s@) == (if body.len() > 0 && all_hex(body) && hex_value(body) <= u64::MAX {
                Some(hex_value(body) as u64)
            } else {
                None
            }),
            n == s@.len(),
            i < j <= n,
            i <= k <= j,
            body == s@.subrange(i as int, j as int),
            all_hex(body.take(k - i)),
            v == hex_value(body.take(k - i)),
        decreases j - k,
    {
        let c = s.get_char(k);
        let d = hex_digit(c);
        assert(body[k - i] == c);
        assert(body.take(k - i + 1).drop_last() =~= body.take(k - i));
        assert(body.take(k - i + 1).last() == c);
        if d < 0 {
            assert(!all_hex(body)) by {
                assert(hex_digit_value(body[k - i]) < 0);
            }
            return None;
        }
        let du = d as u64;
        if v > (u64::MAX - du) / 16 {
            proof {
                assert(all_hex(body.take(k - i + 1))) by {
                    assert forall|q: int| 0 <= q < body.take(k - i + 1).len() implies hex_digit_value(#[trigger] body.take(k - i + 1)[q]) >= 0 by {
                        if q < k - i {
                            assert(body.take(k - i + 1)[q] == body.take(k - i)[q]);
                        }
                    }
                }
                assert(v * 16 + du > u64::MAX) by (nonlinear_arith)
                    requires
                        v > (u64::MAX - du) / 16,
                        du <= 15,
                ;
                if all_hex(body) {
                    lemma_hex_value_prefix(body, k - i + 1);
                }
            }
            return None;
        }
        assert(v * 16 + du <= u64::MAX) by (nonlinear_arith)
            requires
                v <= (u64::MAX - du) / 16,
                du <= 15,
        ;
        v = v * 16 + du;
        assert(all_hex(body.take(k - i + 1))) by {
            assert forall|q: int| 0 <= q < body.take(k - i + 1).len() implies hex_digit_value(#[trigger] body.take(k - i + 1)[q]) >= 0 by {
                if q < k - i {
                    assert(body.take(k - i + 1)[q] == body.take(k - i)[q]);
                }
            }
        }
        k = k + 1;
    }
    assert(body.take(k - i) =~= body);
    Some(v)
}

/// Whether a character is white space.
pub fn is_white(c: char) -> (r: bool)
    ensures
        r == is_white_space(c),
{
    let v = c as u32;
    (9 <= v && v <= 13) || v == 32 || v == 0x85 || v == 0xA0 || v == 0x1680 || (0x2000 <= v && v <= 0x200A)
        || v == 0x2028 || v == 0x2029 || v == 0x202F || v == 0x205F || v == 0x3000
}

} // verus!
