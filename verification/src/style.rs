//! Style attributes and the ANSI escape-sequence encoder, together with the
//! hexadecimal colour decoders.

use vstd::prelude::*;

use crate::digits::dec_str;
use crate::digits::dec_u8;
use crate::digits::lemma_dec_str_digits;
use crate::digits::lemma_dec_str_injective;
use crate::digits::hex_digit_upper;
use crate::digits::hex_digit_val;
use crate::digits::hex_val;
use crate::digits::is_hex_digit;
use crate::digits::lemma_hex_digit_round_trip;
use crate::digits::to_upper_hex;

verus! {

/// Styling options for text display in the terminal.
///
/// The set is closed: every variant corresponds to exactly one ANSI
/// attribute code, given by [`Style::code`]. The two marker variants
/// `FGRGB` and `BGRGB` announce a 24-bit colour triple and are rendered
/// with their components by [`styler`].
#[derive(Clone, Copy, PartialEq, Eq, Structural, Debug)]
pub enum Style {
    Reset,
    Bold,
    Italic,
    Underline,
    FGBlack,
    FGRed,
    FGGreen,
    FGYellow,
    FGBlue,
    FGPurple,
    FGCyan,
    FGWhite,
    FGRGB,
    BGBlack,
    BGRed,
    BGGreen,
    BGYellow,
    BGBlue,
    BGPurple,
    BGCyan,
    BGWhite,
    BGRGB,
}

/// The fixed ANSI attribute code of each style.
pub open spec fn spec_code(s: Style) -> u8 {
    match s {
        Style::Reset => 0,
        Style::Bold => 1,
        Style::Italic => 3,
        Style::Underline => 4,
        Style::FGBlack => 30,
        Style::FGRed => 31,
        Style::FGGreen => 32,
        Style::FGYellow => 33,
        Style::FGBlue => 34,
        Style::FGPurple => 35,
        Style::FGCyan => 36,
        Style::FGWhite => 37,
        Style::FGRGB => 38,
        Style::BGBlack => 40,
        Style::BGRed => 41,
        Style::BGGreen => 42,
        Style::BGYellow => 43,
        Style::BGBlue => 44,
        Style::BGPurple => 45,
        Style::BGCyan => 46,
        Style::BGWhite => 47,
        Style::BGRGB => 48,
    }
}

/// The decimal rendering of one style's attribute code.
pub open spec fn code_chars(s: Style) -> Seq<char> {
    dec_str(spec_code(s) as nat)
}

impl Style {
    /// The ANSI attribute code of this style.
    pub fn code(&self) -> (c: u8)
        ensures
            c == spec_code(*self),
    {
        match *self {
            Style::Reset => 0,
            Style::Bold => 1,
            Style::Italic => 3,
            Style::Underline => 4,
            Style::FGBlack => 30,
            Style::FGRed => 31,
            Style::FGGreen => 32,
            Style::FGYellow => 33,
            Style::FGBlue => 34,
            Style::FGPurple => 35,
            Style::FGCyan => 36,
            Style::FGWhite => 37,
            Style::FGRGB => 38,
            Style::BGBlack => 40,
            Style::BGRed => 41,
            Style::BGGreen => 42,
            Style::BGYellow => 43,
            Style::BGBlue => 44,
            Style::BGPurple => 45,
            Style::BGCyan => 46,
            Style::BGWhite => 47,
            Style::BGRGB => 48,
        }
    }

    /// The attribute code of this style rendered in decimal, as it appears
    /// inside an escape sequence.
    pub fn code_string(&self) -> (s: String)
        ensures
            s@ == code_chars(*self),
    {
        dec_u8(self.code())
    }
}

/// An error encountered while converting a hexadecimal string to an RGB
/// colour.
///
/// - `ParseError(k)`: the `k`-th two-character group (0 for red, 1 for
///   green, 2 for blue) contained a character that is not a hexadecimal
///   digit; `k` identifies the first group that failed to parse.
/// - `InvalidLength`: after stripping one optional leading `'#'`, the input
///   was not exactly six characters long.
#[derive(Clone, Copy, PartialEq, Eq, Structural, Debug)]
pub enum HexError {
    ParseError(u8),
    InvalidLength,
}

/// The input with one optional leading `'#'` stripped.
pub open spec fn strip_hash(s: Seq<char>) -> Seq<char> {
    if s.len() > 0 && s[0] == '#' {
        s.drop_first()
    } else {
        s
    }
}

/// Whether the `k`-th two-character group of `h` consists of hexadecimal
/// digits; meaningful when `h` has at least `2 * k + 2` characters.
pub open spec fn pair_ok(h: Seq<char>, k: int) -> bool {
    is_hex_digit(h[2 * k]) && is_hex_digit(h[2 * k + 1])
}

/// The value of the `k`-th two-character hexadecimal group of `h`.
pub open spec fn pair_val(h: Seq<char>, k: int) -> nat {
    16 * hex_val(h[2 * k]) + hex_val(h[2 * k + 1])
}

/// Whether all three colour groups of a six-character string are valid
/// hexadecimal.
pub open spec fn all_pairs_ok(h: Seq<char>) -> bool {
    pair_ok(h, 0) && pair_ok(h, 1) && pair_ok(h, 2)
}

/// What the strict hexadecimal decoder returns on the character sequence
/// `s`: the three colour components on a fully valid input, `InvalidLength`
/// when the stripped input is not six characters, and otherwise the first
/// group that is not valid hexadecimal.
pub open spec fn to_rgb_spec(s: Seq<char>) -> Result<(u8, u8, u8), HexError> {
    let h = strip_hash(s);
    if h.len() != 6 {
        Err(HexError::InvalidLength)
    } else if !pair_ok(h, 0) {
        Err(HexError::ParseError(0))
    } else if !pair_ok(h, 1) {
        Err(HexError::ParseError(1))
    } else if !pair_ok(h, 2) {
        Err(HexError::ParseError(2))
    } else {
        Ok((pair_val(h, 0) as u8, pair_val(h, 1) as u8, pair_val(h, 2) as u8))
    }
}

/// What the lenient hexadecimal decoder returns: as the strict decoder, but
/// a group that fails to parse contributes 0, and an input of the wrong
/// length yields black outright.
pub open spec fn as_rgb_spec(s: Seq<char>) -> (u8, u8, u8) {
    let h = strip_hash(s);
    if h.len() != 6 {
        (0, 0, 0)
    } else {
        (
            if pair_ok(h, 0) {
                pair_val(h, 0) as u8
            } else {
                0
            },
            if pair_ok(h, 1) {
                pair_val(h, 1) as u8
            } else {
                0
            },
            if pair_ok(h, 2) {
                pair_val(h, 2) as u8
            } else {
                0
            },
        )
    }
}

/// Parses the two-character hexadecimal group at character offset `i` of
/// `s`.
fn parse_pair(s: &str, i: usize) -> (r: Option<u8>)
    requires
        i + 2 <= s@.len(),
        i + 2 <= usize::MAX,
    ensures
        r == if is_hex_digit(s@[i as int]) && is_hex_digit(s@[i as int + 1]) {
            Some((16 * hex_val(s@[i as int]) + hex_val(s@[i as int + 1])) as u8)
        } else {
            None::<u8>
        },
{
    let hi = hex_digit_val(s.get_char(i));
    let lo = hex_digit_val(s.get_char(i + 1));
    match (hi, lo) {
        (Some(h), Some(l)) => Some(16 * h + l),
        _ => None,
    }
}

/// Converts a hexadecimal colour string of the form `"RRGGBB"` or
/// `"#RRGGBB"` to its RGB components, reporting a malformed group or a
/// wrong length as a typed error.
pub fn to_rgb(value: &str) -> (r: Result<(u8, u8, u8), HexError>)
    ensures
        r == to_rgb_spec(value@),
        r is Ok <==> strip_hash(value@).len() == 6 && all_pairs_ok(strip_hash(value@)),
        strip_hash(value@).len() != 6 ==> r == Err::<(u8, u8, u8), HexError>(
            HexError::InvalidLength,
        ),
        strip_hash(value@).len() == 6 && !all_pairs_ok(strip_hash(value@)) ==> (r matches Err(
            HexError::ParseError(_),
        )),
{
    let n = value.unicode_len();
    let start: usize = if n > 0 && value.get_char(0) == '#' {
        1
    } else {
        0
    };
    proof {
        assert(strip_hash(value@) =~= value@.skip(start as int));
    }
    if n - start != 6 {
        return Err(HexError::InvalidLength);
    }
    let r = match parse_pair(value, start) {
        Some(v) => v,
        None => {
            return Err(HexError::ParseError(0));
        },
    };
    let g = match parse_pair(value, start + 2) {
        Some(v) => v,
        None => {
            return Err(HexError::ParseError(1));
        },
    };
    let b = match parse_pair(value, start + 4) {
        Some(v) => v,
        None => {
            return Err(HexError::ParseError(2));
        },
    };
    Ok((r, g, b))
}

/// Converts a hexadecimal colour string to its RGB components, degrading
/// silently: a malformed group counts as 0 and an input of the wrong length
/// yields black `(0, 0, 0)`.
pub fn as_rgb(value: &str) -> (r: (u8, u8, u8))
    ensures
        r == as_rgb_spec(value@),
{
    let n = value.unicode_len();
    let start: usize = if n > 0 && value.get_char(0) == '#' {
        1
    } else {
        0
    };
    proof {
        assert(strip_hash(value@) =~= value@.skip(start as int));
    }
    if n - start != 6 {
        return (0, 0, 0);
    }
    let r = match parse_pair(value, start) {
        Some(v) => v,
        None => 0,
    };
    let g = match parse_pair(value, start + 2) {
        Some(v) => v,
        None => 0,
    };
    let b = match parse_pair(value, start + 4) {
        Some(v) => v,
        None => 0,
    };
    (r, g, b)
}

/// The parts joined with `';'` between consecutive parts.
pub open spec fn join_semi(parts: Seq<Seq<char>>) -> Seq<char>
    decreases parts.len(),
{
    if parts.len() == 0 {
        Seq::empty()
    } else if parts.len() == 1 {
        parts[0]
    } else {
        parts[0] + seq![';'] + join_semi(parts.drop_first())
    }
}

/// Joining one more part appends it after a `';'`, except onto an empty
/// list.
pub proof fn lemma_join_semi_push(parts: Seq<Seq<char>>, p: Seq<char>)
    ensures
        join_semi(parts.push(p)) == if parts.len() == 0 {
            p
        } else {
            join_semi(parts) + seq![';'] + p
        },
    decreases parts.len(),
{
    if parts.len() == 0 {
        assert(parts.push(p)[0] == p);
    } else {
        lemma_join_semi_push(parts.drop_first(), p);
        assert(parts.push(p).drop_first() =~= parts.drop_first().push(p));
        assert(parts.push(p)[0] == parts[0]);
        if parts.len() == 1 {
            assert(join_semi(parts.push(p)) == parts[0] + seq![';'] + p);
        } else {
            assert(join_semi(parts.push(p)) =~= join_semi(parts) + seq![';'] + p);
        }
    }
}

/// The full escape sequence: introducer, joined attribute codes, the `'m'`
/// terminator, the text itself, and the reset suffix.
pub open spec fn wrap_codes(codes: Seq<char>, text: Seq<char>) -> Seq<char> {
    seq!['\x1b', '['] + codes + seq!['m'] + text + seq!['\x1b', '[', '0', 'm']
}

/// The decimal code renderings of a sequence of styles.
pub open spec fn style_codes(styles: Seq<Style>) -> Seq<Seq<char>> {
    styles.map_values(|s: Style| code_chars(s))
}

/// What [`style`] returns: the text wrapped in the codes of the given
/// styles, in the given order.
pub open spec fn style_spec(styles: Seq<Style>, text: Seq<char>) -> Seq<char> {
    wrap_codes(join_semi(style_codes(styles)), text)
}

/// Wraps `codes` and `input` into the final escape sequence.
fn wrap(codes: String, input: &str) -> (r: String)
    ensures
        r@ == wrap_codes(codes@, input@),
{
    let mut r = String::from_str("\x1b[");
    r.append(codes.as_str());
    r.append("m");
    r.append(input);
    r.append("\x1b[0m");
    proof {
        reveal_strlit("\x1b[");
        reveal_strlit("m");
        reveal_strlit("\x1b[0m");
        assert(r@ =~= wrap_codes(codes@, input@));
    }
    r
}

/// Applies ANSI styling to a string: each style's attribute code is
/// rendered in decimal, the codes are joined with `';'` in the caller's
/// order, and the input is wrapped as `\x1b[<codes>m<input>\x1b[0m`.
pub fn style(styles: &Vec<Style>, input: &str) -> (r: String)
    ensures
        r@ == style_spec(styles@, input@),
{
    let mut codes = String::new();
    let mut i: usize = 0;
    while i < styles.len()
        invariant
            i <= styles.len(),
            codes@ == join_semi(style_codes(styles@.take(i as int))),
        decreases styles.len() - i,
    {
        proof {
            lemma_join_semi_push(style_codes(styles@.take(i as int)), code_chars(styles@[i as int]));
            assert(style_codes(styles@.take(i as int)).push(code_chars(styles@[i as int]))
                =~= style_codes(styles@.take(i as int + 1)));
            reveal_strlit(";");
        }
        if i > 0 {
            codes.append(";");
        }
        let c = styles[i].code_string();
        codes.append(c.as_str());
        proof {
            assert(style_codes(styles@.take(i as int)).len() == i);
            assert(codes@ =~= join_semi(style_codes(styles@.take(i as int + 1))));
        }
        i += 1;
    }
    proof {
        assert(styles@.take(styles@.len() as int) =~= styles@);
    }
    wrap(codes, input)
}

/// Whether a style announces a 24-bit colour triple.
pub open spec fn is_rgb_marker(s: Style) -> bool {
    s == Style::FGRGB || s == Style::BGRGB
}

/// The code rendering of one entry of [`styler`]: an RGB marker carries its
/// three components in the 5-field extended form
/// `<marker>;2;<r>;<g>;<b>`, any other style contributes its bare attribute
/// code and its components are ignored.
pub open spec fn entry_chars(e: (Style, u8, u8, u8)) -> Seq<char> {
    if is_rgb_marker(e.0) {
        code_chars(e.0) + seq![';', '2', ';'] + dec_str(e.1 as nat) + seq![';'] + dec_str(e.2 as nat)
            + seq![';'] + dec_str(e.3 as nat)
    } else {
        code_chars(e.0)
    }
}

/// The renderings of a sequence of [`styler`] entries.
pub open spec fn entries_chars(entries: Seq<(Style, u8, u8, u8)>) -> Seq<Seq<char>> {
    entries.map_values(|e: (Style, u8, u8, u8)| entry_chars(e))
}

/// What [`styler`] returns: the text wrapped in the renderings of the given
/// entries, in the given order.
pub open spec fn styler_spec(entries: Seq<(Style, u8, u8, u8)>, text: Seq<char>) -> Seq<char> {
    wrap_codes(join_semi(entries_chars(entries)), text)
}

/// Renders one entry of [`styler`].
fn entry_string(e: (Style, u8, u8, u8)) -> (s: String)
    ensures
        s@ == entry_chars(e),
{
    let (st, r, g, b) = e;
    let mut s = st.code_string();
    match st {
        Style::FGRGB | Style::BGRGB => {
            proof {
                reveal_strlit(";2;");
                reveal_strlit(";");
            }
            s.append(";2;");
            let rs = dec_u8(r);
            s.append(rs.as_str());
            s.append(";");
            let gs = dec_u8(g);
            s.append(gs.as_str());
            s.append(";");
            let bs = dec_u8(b);
            s.append(bs.as_str());
            proof {
                assert(s@ =~= entry_chars(e));
            }
        },
        _ => {},
    }
    s
}

/// Applies ANSI styling to a string from a list of styles each paired with
/// RGB components: `FGRGB` and `BGRGB` entries render their components in
/// the extended 24-bit colour form, every other entry renders its bare
/// attribute code, and the input is wrapped as with [`style`].
pub fn styler(entries: &Vec<(Style, u8, u8, u8)>, input: &str) -> (r: String)
    ensures
        r@ == styler_spec(entries@, input@),
{
    let mut codes = String::new();
    let mut i: usize = 0;
    while i < entries.len()
        invariant
            i <= entries.len(),
            codes@ == join_semi(entries_chars(entries@.take(i as int))),
        decreases entries.len() - i,
    {
        proof {
            lemma_join_semi_push(
                entries_chars(entries@.take(i as int)),
                entry_chars(entries@[i as int]),
            );
            assert(entries_chars(entries@.take(i as int)).push(entry_chars(entries@[i as int]))
                =~= entries_chars(entries@.take(i as int + 1)));
            reveal_strlit(";");
        }
        if i > 0 {
            codes.append(";");
        }
        let e = entry_string(entries[i]);
        codes.append(e.as_str());
        proof {
            assert(entries_chars(entries@.take(i as int)).len() == i);
            assert(codes@ =~= join_semi(entries_chars(entries@.take(i as int + 1))));
        }
        i += 1;
    }
    proof {
        assert(entries@.take(entries@.len() as int) =~= entries@);
    }
    wrap(codes, input)
}

/// A leading `'#'` is optional and immaterial: on a six-character string of
/// hexadecimal digits, both decoders return the same answer with and
/// without the prefix.
pub proof fn lemma_hash_prefix_immaterial(h: Seq<char>)
    requires
        h.len() == 6,
        forall|i: int| 0 <= i < 6 ==> is_hex_digit(#[trigger] h[i]),
    ensures
        to_rgb_spec(seq!['#'] + h) == to_rgb_spec(h),
        as_rgb_spec(seq!['#'] + h) == as_rgb_spec(h),
{
    assert((seq!['#'] + h)[0] == '#');
    assert((seq!['#'] + h).drop_first() =~= h);
    assert(h[0] != '#');
}

/// The six-character upper-case hexadecimal rendering of a colour triple,
/// two digits per component.
pub open spec fn to_hex6(r: u8, g: u8, b: u8) -> Seq<char> {
    seq![
        hex_digit_upper(r as nat / 16),
        hex_digit_upper(r as nat % 16),
        hex_digit_upper(g as nat / 16),
        hex_digit_upper(g as nat % 16),
        hex_digit_upper(b as nat / 16),
        hex_digit_upper(b as nat % 16),
    ]
}

/// Decoding a six-character string of hexadecimal digits succeeds — the
/// strict and lenient decoders agree on it — and re-encoding the triple as
/// six hexadecimal digits round-trips to the upper-case normalisation of
/// the original digits.
pub proof fn lemma_hex_round_trip(h: Seq<char>)
    requires
        h.len() == 6,
        forall|i: int| 0 <= i < 6 ==> is_hex_digit(#[trigger] h[i]),
    ensures
        to_rgb_spec(h) == Ok::<(u8, u8, u8), HexError>(as_rgb_spec(h)),
        to_hex6(as_rgb_spec(h).0, as_rgb_spec(h).1, as_rgb_spec(h).2) == h.map_values(
            |c: char| to_upper_hex(c),
        ),
{
    assert(h[0] != '#');
    assert(strip_hash(h) == h);
    assert forall|k: int| 0 <= k < 3 implies pair_ok(h, k) by {
        assert(is_hex_digit(h[2 * k]));
        assert(is_hex_digit(h[2 * k + 1]));
    }
    assert forall|k: int| 0 <= k < 3 implies pair_val(h, k) < 256 && pair_val(h, k) / 16 == hex_val(
        h[2 * k],
    ) && pair_val(h, k) % 16 == hex_val(h[2 * k + 1]) by {
        lemma_hex_digit_round_trip(h[2 * k]);
        lemma_hex_digit_round_trip(h[2 * k + 1]);
    }
    let t = as_rgb_spec(h);
    assert forall|i: int| 0 <= i < 6 implies to_hex6(t.0, t.1, t.2)[i] == to_upper_hex(h[i]) by {
        lemma_hex_digit_round_trip(h[i]);
    }
    assert(to_hex6(t.0, t.1, t.2) =~= h.map_values(|c: char| to_upper_hex(c)));
}

/// Attribute order is preserved verbatim: styling with `[a, b]` renders
/// `a`'s code before `b`'s, styling with `[b, a]` renders them the other
/// way round, and for distinct styles the two outputs differ — the
/// encoding is not commutative.
pub proof fn lemma_attribute_order_preserved(a: Style, b: Style, text: Seq<char>)
    ensures
        style_spec(seq![a, b], text) == wrap_codes(
            code_chars(a) + seq![';'] + code_chars(b),
            text,
        ),
        style_spec(seq![b, a], text) == wrap_codes(
            code_chars(b) + seq![';'] + code_chars(a),
            text,
        ),
        a != b ==> style_spec(seq![a, b], text) != style_spec(seq![b, a], text),
{
    lemma_style_pair(a, b, text);
    lemma_style_pair(b, a, text);
    if a != b {
        lemma_code_chars_injective(a, b);
        lemma_dec_str_digits(spec_code(a) as nat);
        lemma_dec_str_digits(spec_code(b) as nat);
        lemma_joined_pair_ordered(code_chars(a), code_chars(b));
        let x = code_chars(a) + seq![';'] + code_chars(b);
        let y = code_chars(b) + seq![';'] + code_chars(a);
        if wrap_codes(x, text) == wrap_codes(y, text) {
            assert(x.len() == y.len());
            assert forall|i: int| 0 <= i < x.len() implies x[i] == y[i] by {
                assert(wrap_codes(x, text)[2 + i] == x[i]);
                assert(wrap_codes(y, text)[2 + i] == y[i]);
            }
            assert(x =~= y);
        }
    }
}

/// Distinct styles have distinct attribute codes, hence distinct code
/// renderings.
proof fn lemma_code_chars_injective(a: Style, b: Style)
    requires
        a != b,
    ensures
        code_chars(a) != code_chars(b),
{
    assert(spec_code(a) != spec_code(b));
    if code_chars(a) == code_chars(b) {
        lemma_dec_str_injective(spec_code(a) as nat, spec_code(b) as nat);
    }
}

/// Two distinct attribute code renderings joined in the two orders give
/// distinct strings: the `';'` separates them unambiguously, since a code
/// rendering holds only decimal digits.
proof fn lemma_joined_pair_ordered(ca: Seq<char>, cb: Seq<char>)
    requires
        ca != cb,
        forall|i: int| 0 <= i < ca.len() ==> '0' <= #[trigger] ca[i] && ca[i] <= '9',
        forall|i: int| 0 <= i < cb.len() ==> '0' <= #[trigger] cb[i] && cb[i] <= '9',
    ensures
        ca + seq![';'] + cb != cb + seq![';'] + ca,
{
    let x = ca + seq![';'] + cb;
    let y = cb + seq![';'] + ca;
    if x == y {
        let la = ca.len() as int;
        let lb = cb.len() as int;
        assert(x[la] == ';');
        assert(y[lb] == ';');
        if la < lb {
            assert(y[la] == cb[la]);
        } else if lb < la {
            assert(x[lb] == ca[lb]);
        } else {
            assert forall|i: int| 0 <= i < la implies ca[i] == cb[i] by {
                assert(x[i] == ca[i]);
                assert(y[i] == cb[i]);
            }
            assert(ca =~= cb);
        }
    }
}

/// Unfolds [`style_spec`] on a two-style sequence.
proof fn lemma_style_pair(a: Style, b: Style, text: Seq<char>)
    ensures
        style_spec(seq![a, b], text) == wrap_codes(
            code_chars(a) + seq![';'] + code_chars(b),
            text,
        ),
{
    let parts = style_codes(seq![a, b]);
    assert(parts.len() == 2);
    assert(parts[0] == code_chars(a));
    assert(parts.drop_first() =~= seq![code_chars(b)]);
    assert(join_semi(parts.drop_first()) == code_chars(b));
    assert(join_semi(parts) =~= code_chars(a) + seq![';'] + code_chars(b));
}

/// The two entry points agree: a list of [`styler`] entries none of which
/// is an RGB marker renders exactly as [`style`] applied to the styles
/// alone, whatever components the entries carry.
pub proof fn lemma_styler_agrees_with_style(entries: Seq<(Style, u8, u8, u8)>, text: Seq<char>)
    requires
        forall|i: int| 0 <= i < entries.len() ==> !is_rgb_marker(#[trigger] entries[i].0),
    ensures
        styler_spec(entries, text) == style_spec(
            entries.map_values(|e: (Style, u8, u8, u8)| e.0),
            text,
        ),
{
    let styles = entries.map_values(|e: (Style, u8, u8, u8)| e.0);
    assert forall|i: int| 0 <= i < entries.len() implies entries_chars(entries)[i] == style_codes(
        styles,
    )[i] by {
        assert(!is_rgb_marker(entries[i].0));
    }
    assert(entries_chars(entries) =~= style_codes(styles));
}

} // verus!
