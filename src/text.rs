use vstd::prelude::*;
use vstd::string::*;

verus! {

/// Text positions 8, 13, 18 and 23 hold the group separators.
pub open spec fn is_hyphen_pos(i: int) -> bool {
    i == 8 || i == 13 || i == 18 || i == 23
}

pub open spec fn is_hex_char(c: char) -> bool {
    ('0' <= c && c <= '9') || ('a' <= c && c <= 'f') || ('A' <= c && c <= 'F')
}

/// Value of a hexadecimal digit, either case.
pub open spec fn hex_char_value(c: char) -> int {
    if '0' <= c && c <= '9' {
        c as int - '0' as int
    } else if 'a' <= c && c <= 'f' {
        c as int - 'a' as int + 10
    } else {
        c as int - 'A' as int + 10
    }
}

pub open spec fn lower_digits() -> Seq<char> {
    seq!['0', '1', '2', '3', '4', '5', '6', '7', '8', '9', 'a', 'b', 'c', 'd', 'e', 'f']
}

pub open spec fn upper_digits() -> Seq<char> {
    seq!['0', '1', '2', '3', '4', '5', '6', '7', '8', '9', 'A', 'B', 'C', 'D', 'E', 'F']
}

/// The digit character for a nibble `n < 16`.
pub open spec fn hex_digit(n: int, upper: bool) -> char {
    if upper {
        upper_digits()[n]
    } else {
        lower_digits()[n]
    }
}

/// Number of separators that stand before text position `i`.
pub open spec fn hyphens_before(i: int) -> int {
    (if i > 8 { 1int } else { 0int }) + (if i > 13 { 1int } else { 0int }) + (if i > 18 {
        1int
    } else {
        0int
    }) + (if i > 23 { 1int } else { 0int })
}

/// Index, among the 32 hex digits, of the digit at text position `i`.
pub open spec fn digit_index(i: int) -> int {
    i - hyphens_before(i)
}

/// Text position of the `k`-th of the 32 hex digits.
pub open spec fn digit_pos(k: int) -> int {
    k + (if k >= 8 { 1int } else { 0int }) + (if k >= 12 { 1int } else { 0int }) + (if k >= 16 {
        1int
    } else {
        0int
    }) + (if k >= 20 { 1int } else { 0int })
}

/// The `k`-th nibble of `b`, most significant nibble of each byte first.
pub open spec fn nibble(b: Seq<u8>, k: int) -> int {
    if k % 2 == 0 {
        b[k / 2] as int / 16
    } else {
        b[k / 2] as int % 16
    }
}

/// The canonical `8-4-4-4-12` text of the 16 bytes `b`.
pub open spec fn canonical_text(b: Seq<u8>, upper: bool) -> Seq<char> {
    Seq::new(
        36,
        |i: int|
            if is_hyphen_pos(i) {
                '-'
            } else {
                hex_digit(nibble(b, digit_index(i)), upper)
            },
    )
}

/// Whether `t` follows the canonical grammar: 36 characters, separators at
/// the four fixed positions and hex digits (either case) everywhere else.
pub open spec fn is_canonical(t: Seq<char>) -> bool {
    &&& t.len() == 36
    &&& forall|i: int|
        0 <= i < 36 ==> if is_hyphen_pos(i) {
            t[i] == '-'
        } else {
            is_hex_char(#[trigger] t[i])
        }
}

/// The 16 bytes that canonical text `t` denotes: the hex digit pairs in order.
pub open spec fn text_bytes(t: Seq<char>) -> Seq<u8> {
    Seq::new(
        16,
        |j: int|
            (16 * hex_char_value(t[digit_pos(2 * j)]) + hex_char_value(t[digit_pos(2 * j + 1)])) as u8,
    )
}

/// Why a text was not accepted as a UUID.
#[derive(Clone, Copy, Debug, PartialEq, Eq)]
pub enum ParseError {
    /// The text does not follow the `8-4-4-4-12` hexadecimal grammar.
    Malformed,
}

fn hex_value(c: char) -> (r: Option<u8>)
    ensures
        r is Some <==> is_hex_char(c),
        r matches Some(v) ==> v as int == hex_char_value(c) && v < 16,
{
    if '0' <= c && c <= '9' {
        Some((c as u32 - '0' as u32) as u8)
    } else if 'a' <= c && c <= 'f' {
        Some((c as u32 - 'a' as u32 + 10) as u8)
    } else if 'A' <= c && c <= 'F' {
        Some((c as u32 - 'A' as u32 + 10) as u8)
    } else {
        None
    }
}

/// Text position of the `k`-th hex digit.
fn digit_position(k: usize) -> (p: usize)
    requires
        k < 32,
    ensures
        p as int == digit_pos(k as int),
        p < 36,
{
    let mut p = k;
    if k >= 8 {
        p = p + 1;
    }
    if k >= 12 {
        p = p + 1;
    }
    if k >= 16 {
        p = p + 1;
    }
    if k >= 20 {
        p = p + 1;
    }
    p
}

/// Index among the hex digits of the digit at text position `i`.
fn digit_number(i: usize) -> (k: usize)
    requires
        i < 36,
        !is_hyphen_pos(i as int),
    ensures
        k as int == digit_index(i as int),
        k < 32,
{
    let mut k = i;
    if i > 8 {
        k = k - 1;
    }
    if i > 13 {
        k = k - 1;
    }
    if i > 18 {
        k = k - 1;
    }
    if i > 23 {
        k = k - 1;
    }
    k
}

/// Reads the canonical text form of a UUID. Hex digits may be of either
/// case; the text must hold exactly the 36 characters of the grammar.
pub fn uuid_parse(text: &str) -> (r: Result<[u8; 16], ParseError>)
    ensures
        r is Ok <==> is_canonical(text@),
        r matches Ok(b) ==> b@ == text_bytes(text@),
{
    if text.unicode_len() != 36 {
        return Err(ParseError::Malformed);
    }
    let mut i: usize = 0;
    while i < 36
        invariant
            0 <= i <= 36,
            text@.len() == 36,
            forall|k: int|
                0 <= k < i ==> if is_hyphen_pos(k) {
                    text@[k] == '-'
                } else {
                    is_hex_char(#[trigger] text@[k])
                },
        decreases 36 - i,
    {
        let c = text.get_char(i);
        if i == 8 || i == 13 || i == 18 || i == 23 {
            if c != '-' {
                return Err(ParseError::Malformed);
            }
        } else if hex_value(c).is_none() {
            return Err(ParseError::Malformed);
        }
        i = i + 1;
    }
    let mut out: [u8; 16] = [0u8; 16];
    let mut j: usize = 0;
    while j < 16
        invariant
            0 <= j <= 16,
            is_canonical(text@),
            forall|m: int| 0 <= m < j ==> out@[m] == text_bytes(text@)[m],
        decreases 16 - j,
    {
        let p = digit_position(2 * j);
        let q = digit_position(2 * j + 1);
        assert(!is_hyphen_pos(p as int) && !is_hyphen_pos(q as int));
        let hi = hex_value(text.get_char(p));
        let lo = hex_value(text.get_char(q));
        assert(is_hex_char(text@[p as int]) && is_hex_char(text@[q as int]));
        let hi = hi.unwrap();
        let lo = lo.unwrap();
        out[j] = hi * 16 + lo;
        j = j + 1;
    }
    assert(out@ =~= text_bytes(text@));
    Ok(out)
}

/// Writes the canonical text of `uu` with digits of the given case.
fn format_text(uu: &[u8; 16], upper: bool) -> (r: String)
    ensures
        r@ == canonical_text(uu@, upper),
{
    let digits = if upper {
        "0123456789ABCDEF"
    } else {
        "0123456789abcdef"
    };
    proof {
        reveal_strlit("0123456789ABCDEF");
        reveal_strlit("0123456789abcdef");
        reveal_strlit("-");
        if upper {
            assert(digits@ =~= upper_digits());
        } else {
            assert(digits@ =~= lower_digits());
        }
    }
    let mut s = String::new();
    let mut i: usize = 0;
    while i < 36
        invariant
            0 <= i <= 36,
            digits@ == (if upper { upper_digits() } else { lower_digits() }),
            "-"@ == seq!['-'],
            s@ == canonical_text(uu@, upper).subrange(0, i as int),
        decreases 36 - i,
    {
        if i == 8 || i == 13 || i == 18 || i == 23 {
            s.append("-");
        } else {
            let k = digit_number(i);
            let b = uu[k / 2];
            let n = if k % 2 == 0 {
                b / 16
            } else {
                b % 16
            };
            let d = digits.substring_char(n as usize, n as usize + 1);
            assert(d@ =~= seq![hex_digit(nibble(uu@, k as int), upper)]);
            s.append(d);
        }
        assert(s@ =~= canonical_text(uu@, upper).subrange(0, i + 1));
        i = i + 1;
    }
    assert(s@ =~= canonical_text(uu@, upper));
    s
}

/// The canonical text of `uu` with lowercase hex digits.
pub fn uuid_unparse_lower(uu: &[u8; 16]) -> (r: String)
    ensures
        r@ == canonical_text(uu@, false),
{
    format_text(uu, false)
}

/// The canonical text of `uu` with uppercase hex digits.
pub fn uuid_unparse_upper(uu: &[u8; 16]) -> (r: String)
    ensures
        r@ == canonical_text(uu@, true),
{
    format_text(uu, true)
}

/// The default text form of `uu`, which uses uppercase hex digits.
pub fn uuid_unparse(uu: &[u8; 16]) -> (r: String)
    ensures
        r@ == canonical_text(uu@, true),
{
    uuid_unparse_upper(uu)
}

/// Character code of `c` with ASCII uppercase letters mapped to lowercase.
pub open spec fn fold_case(c: char) -> int {
    if 'A' <= c && c <= 'Z' {
        c as int + 32
    } else {
        c as int
    }
}

/// Whether `s` and `t` differ in letter case at most.
pub open spec fn eq_ignoring_case(s: Seq<char>, t: Seq<char>) -> bool {
    &&& s.len() == t.len()
    &&& forall|i: int| 0 <= i < s.len() ==> fold_case(#[trigger] s[i]) == fold_case(t[i])
}

proof fn lemma_hex_digit(n: int, upper: bool)
    requires
        0 <= n < 16,
    ensures
        is_hex_char(hex_digit(n, upper)),
        hex_char_value(hex_digit(n, upper)) == n,
{
}

proof fn lemma_hex_char(c: char, upper: bool)
    requires
        is_hex_char(c),
    ensures
        fold_case(hex_digit(hex_char_value(c), upper)) == fold_case(c),
{
}

proof fn lemma_byte_nibbles(x: int, y: int)
    requires
        0 <= x < 16,
        0 <= y < 16,
    ensures
        (16 * x + y) / 16 == x,
        (16 * x + y) % 16 == y,
{
    assert((16 * x + y) / 16 == x && (16 * x + y) % 16 == y) by (nonlinear_arith)
        requires
            0 <= x < 16,
            0 <= y < 16,
    ;
}

/// Formatting and then parsing gives back the original bytes, whichever
/// case the digits were written in; and the formatted text is canonical.
pub proof fn lemma_format_then_parse(b: Seq<u8>, upper: bool)
    requires
        b.len() == 16,
    ensures
        is_canonical(canonical_text(b, upper)),
        text_bytes(canonical_text(b, upper)) == b,
{
    let t = canonical_text(b, upper);
    assert forall|i: int| 0 <= i < 36 && !is_hyphen_pos(i) implies is_hex_char(#[trigger] t[i]) by {
        let k = digit_index(i);
        assert(0 <= nibble(b, k) < 16);
        lemma_hex_digit(nibble(b, k), upper);
    }
    assert forall|j: int| 0 <= j < 16 implies #[trigger] text_bytes(t)[j] == b[j] by {
        let p = digit_pos(2 * j);
        let q = digit_pos(2 * j + 1);
        assert(digit_index(p) == 2 * j && digit_index(q) == 2 * j + 1);
        let hi = b[j] as int / 16;
        let lo = b[j] as int % 16;
        assert(nibble(b, 2 * j) == hi);
        assert(nibble(b, 2 * j + 1) == lo);
        lemma_hex_digit(hi, upper);
        lemma_hex_digit(lo, upper);
        assert(16 * hi + lo == b[j] as int);
    }
    assert(text_bytes(t) =~= b);
}

/// Parsing canonical text and formatting the bytes again gives back the
/// text, up to the case of its letters.
pub proof fn lemma_parse_then_format(t: Seq<char>, upper: bool)
    requires
        is_canonical(t),
    ensures
        eq_ignoring_case(canonical_text(text_bytes(t), upper), t),
{
    let b = text_bytes(t);
    let s = canonical_text(b, upper);
    assert forall|i: int| 0 <= i < 36 implies fold_case(#[trigger] s[i]) == fold_case(t[i]) by {
        if !is_hyphen_pos(i) {
            let k = digit_index(i);
            let j = k / 2;
            let x = hex_char_value(t[digit_pos(2 * j)]);
            let y = hex_char_value(t[digit_pos(2 * j + 1)]);
            assert(is_hex_char(t[digit_pos(2 * j)]));
            assert(is_hex_char(t[digit_pos(2 * j + 1)]));
            lemma_byte_nibbles(x, y);
            assert(b[j] as int == 16 * x + y);
            assert(is_hex_char(t[i]));
            lemma_hex_char(t[i], upper);
            if k % 2 == 0 {
                assert(digit_pos(2 * j) == i);
            } else {
                assert(digit_pos(2 * j + 1) == i);
            }
        }
    }
}

} // verus!
