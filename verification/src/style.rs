//! The style decoder: dotted attribute strings folded into a `Style` value.
//!
//! A dotted token string such as `red.on_blue.bold` is split on `.` and each
//! non-empty token is applied to a running [`Style`]. Unknown tokens that are
//! not valid 8-bit palette indices are skipped silently.

use vstd::prelude::*;

use crate::ascii::{
    all_digits, dec_value, is_digit_byte, lemma_dec_value_take_le, lemma_dec_value_take_step,
};
use vstd::slice::slice_subrange;
use vstd::string::StringSliceAdditionalSpecFns;

verus! {

/// A terminal color: one of the eight named ANSI colors, or an arbitrary
/// 8-bit palette index.
#[derive(Clone, Copy, PartialEq, Eq, Debug)]
pub enum Color {
    Black,
    Red,
    Green,
    Yellow,
    Blue,
    Magenta,
    Cyan,
    White,
    Color256(u8),
}

/// A text attribute. Re-applying an attribute overwrites it in place, so an
/// attribute set never accumulates duplicates.
#[derive(Clone, Copy, PartialEq, Eq, Debug)]
pub enum Attribute {
    Bold,
    Dim,
    Italic,
    Underlined,
    Blink,
    Reverse,
    Hidden,
}

/// An order-insensitive set of text attributes. One field per attribute, so
/// structural equality is set equality and insertion is idempotent.
#[derive(Clone, Copy, PartialEq, Eq, Debug)]
pub struct AttrSet {
    pub bold: bool,
    pub dim: bool,
    pub italic: bool,
    pub underlined: bool,
    pub blink: bool,
    pub reverse: bool,
    pub hidden: bool,
}

impl AttrSet {
    /// The empty attribute set.
    pub open spec fn spec_empty() -> AttrSet {
        AttrSet {
            bold: false,
            dim: false,
            italic: false,
            underlined: false,
            blink: false,
            reverse: false,
            hidden: false,
        }
    }

    /// Whether the set contains the attribute.
    pub open spec fn spec_has(self, a: Attribute) -> bool {
        match a {
            Attribute::Bold => self.bold,
            Attribute::Dim => self.dim,
            Attribute::Italic => self.italic,
            Attribute::Underlined => self.underlined,
            Attribute::Blink => self.blink,
            Attribute::Reverse => self.reverse,
            Attribute::Hidden => self.hidden,
        }
    }

    /// The set with the attribute added.
    pub open spec fn spec_insert(self, a: Attribute) -> AttrSet {
        match a {
            Attribute::Bold => AttrSet { bold: true, ..self },
            Attribute::Dim => AttrSet { dim: true, ..self },
            Attribute::Italic => AttrSet { italic: true, ..self },
            Attribute::Underlined => AttrSet { underlined: true, ..self },
            Attribute::Blink => AttrSet { blink: true, ..self },
            Attribute::Reverse => AttrSet { reverse: true, ..self },
            Attribute::Hidden => AttrSet { hidden: true, ..self },
        }
    }

    /// Constructs the empty attribute set.
    pub fn empty() -> (r: AttrSet)
        ensures
            r == AttrSet::spec_empty(),
    {
        AttrSet {
            bold: false,
            dim: false,
            italic: false,
            underlined: false,
            blink: false,
            reverse: false,
            hidden: false,
        }
    }

    /// Tests the set for the attribute.
    pub fn has(&self, a: Attribute) -> (r: bool)
        ensures
            r == self.spec_has(a),
    {
        match a {
            Attribute::Bold => self.bold,
            Attribute::Dim => self.dim,
            Attribute::Italic => self.italic,
            Attribute::Underlined => self.underlined,
            Attribute::Blink => self.blink,
            Attribute::Reverse => self.reverse,
            Attribute::Hidden => self.hidden,
        }
    }

    /// Returns the set with the attribute added.
    #[must_use]
    pub fn insert(self, a: Attribute) -> (r: AttrSet)
        ensures
            r == self.spec_insert(a),
    {
        match a {
            Attribute::Bold => AttrSet { bold: true, ..self },
            Attribute::Dim => AttrSet { dim: true, ..self },
            Attribute::Italic => AttrSet { italic: true, ..self },
            Attribute::Underlined => AttrSet { underlined: true, ..self },
            Attribute::Blink => AttrSet { blink: true, ..self },
            Attribute::Reverse => AttrSet { reverse: true, ..self },
            Attribute::Hidden => AttrSet { hidden: true, ..self },
        }
    }

    /// Inserting an attribute twice is the same as inserting it once.
    pub proof fn lemma_insert_idempotent(self, a: Attribute)
        ensures
            self.spec_insert(a).spec_insert(a) == self.spec_insert(a),
    {
    }

    /// The order in which two attributes are inserted does not matter.
    pub proof fn lemma_insert_commutes(self, a: Attribute, b: Attribute)
        ensures
            self.spec_insert(a).spec_insert(b) == self.spec_insert(b).spec_insert(a),
    {
    }
}

/// A style descriptor: optional foreground and background colors, brightness
/// flags, a set of text attributes, and two reserved flags (`force`,
/// `for_stderr`) that the dotted grammar never sets.
#[derive(Clone, Copy, PartialEq, Eq, Debug)]
pub struct Style {
    pub foreground: Option<Color>,
    pub background: Option<Color>,
    pub fg_bright: bool,
    pub bg_bright: bool,
    pub attributes: AttrSet,
    pub force: Option<bool>,
    pub for_stderr: bool,
}

impl Style {
    /// The style with everything unset.
    pub open spec fn spec_default() -> Style {
        Style {
            foreground: None,
            background: None,
            fg_bright: false,
            bg_bright: false,
            attributes: AttrSet::spec_empty(),
            force: None,
            for_stderr: false,
        }
    }

    /// Constructs the style with everything unset.
    pub fn new() -> (r: Style)
        ensures
            r == Style::spec_default(),
    {
        Style {
            foreground: None,
            background: None,
            fg_bright: false,
            bg_bright: false,
            attributes: AttrSet::empty(),
            force: None,
            for_stderr: false,
        }
    }
}

/// The value of a token parsed as an unsigned 8-bit decimal number: all
/// digits, non-empty, and below 256, or nothing.
pub open spec fn parse_u8_spec(s: Seq<u8>) -> Option<u8> {
    if s.len() > 0 && all_digits(s) && dec_value(s) < 256 {
        Some(dec_value(s) as u8)
    } else {
        None
    }
}

/// Parses a token as an unsigned 8-bit decimal number. No sign, no leading
/// `+`; a value of 256 or more is a parse failure.
pub fn parse_u8(t: &[u8]) -> (r: Option<u8>)
    ensures
        r == parse_u8_spec(t@),
{
    if t.len() == 0 {
        return None;
    }
    let mut acc: u16 = 0;
    let mut i: usize = 0;
    while i < t.len()
        invariant
            i <= t@.len(),
            all_digits(t@.take(i as int)),
            acc == dec_value(t@.take(i as int)),
            acc <= 255,
        decreases t@.len() - i,
    {
        let b = t[i];
        if !(48 <= b && b <= 57) {
            assert(!all_digits(t@)) by {
                assert(!is_digit_byte(t@[i as int]));
            }
            return None;
        }
        proof {
            lemma_dec_value_take_step(t@, i as int);
            assert(t@.take(i + 1).drop_last() =~= t@.take(i as int));
            assert(forall|j: int| 0 <= j < i + 1 ==> is_digit_byte(#[trigger] t@.take(i + 1)[j]));
        }
        acc = acc * 10 + ((b - 48) as u16);
        i += 1;
        if acc > 255 {
            proof {
                if all_digits(t@) {
                    lemma_dec_value_take_le(t@, i as int);
                }
            }
            return None;
        }
    }
    proof {
        assert(t@.take(t@.len() as int) =~= t@);
    }
    Some(acc as u8)
}

/// One token applied to a running style: named colors and attributes match
/// exactly; an `on_`-prefixed remainder or a whole unknown token is tried as
/// an 8-bit palette index; anything else is skipped.
#[verifier::opaque]
pub open spec fn spec_apply_token(st: Style, t: Seq<u8>) -> Style {
    if t == "black".spec_bytes() {
        Style { foreground: Some(Color::Black), ..st }
    } else if t == "red".spec_bytes() {
        Style { foreground: Some(Color::Red), ..st }
    } else if t == "green".spec_bytes() {
        Style { foreground: Some(Color::Green), ..st }
    } else if t == "yellow".spec_bytes() {
        Style { foreground: Some(Color::Yellow), ..st }
    } else if t == "blue".spec_bytes() {
        Style { foreground: Some(Color::Blue), ..st }
    } else if t == "magenta".spec_bytes() {
        Style { foreground: Some(Color::Magenta), ..st }
    } else if t == "cyan".spec_bytes() {
        Style { foreground: Some(Color::Cyan), ..st }
    } else if t == "white".spec_bytes() {
        Style { foreground: Some(Color::White), ..st }
    } else if t == "bright".spec_bytes() {
        Style { fg_bright: true, ..st }
    } else if t == "on_black".spec_bytes() {
        Style { background: Some(Color::Black), ..st }
    } else if t == "on_red".spec_bytes() {
        Style { background: Some(Color::Red), ..st }
    } else if t == "on_green".spec_bytes() {
        Style { background: Some(Color::Green), ..st }
    } else if t == "on_yellow".spec_bytes() {
        Style { background: Some(Color::Yellow), ..st }
    } else if t == "on_blue".spec_bytes() {
        Style { background: Some(Color::Blue), ..st }
    } else if t == "on_magenta".spec_bytes() {
        Style { background: Some(Color::Magenta), ..st }
    } else if t == "on_cyan".spec_bytes() {
        Style { background: Some(Color::Cyan), ..st }
    } else if t == "on_white".spec_bytes() {
        Style { background: Some(Color::White), ..st }
    } else if t == "on_bright".spec_bytes() {
        Style { bg_bright: true, ..st }
    } else if t == "bold".spec_bytes() {
        Style { attributes: st.attributes.spec_insert(Attribute::Bold), ..st }
    } else if t == "dim".spec_bytes() {
        Style { attributes: st.attributes.spec_insert(Attribute::Dim), ..st }
    } else if t == "italic".spec_bytes() {
        Style { attributes: st.attributes.spec_insert(Attribute::Italic), ..st }
    } else if t == "underlined".spec_bytes() {
        Style { attributes: st.attributes.spec_insert(Attribute::Underlined), ..st }
    } else if t == "blink".spec_bytes() {
        Style { attributes: st.attributes.spec_insert(Attribute::Blink), ..st }
    } else if t == "reverse".spec_bytes() {
        Style { attributes: st.attributes.spec_insert(Attribute::Reverse), ..st }
    } else if t == "hidden".spec_bytes() {
        Style { attributes: st.attributes.spec_insert(Attribute::Hidden), ..st }
    } else if t.len() > 3 && t[0] == 111 && t[1] == 110 && t[2] == 95 {
        match parse_u8_spec(t.skip(3)) {
            Some(n) => Style { background: Some(Color::Color256(n)), ..st },
            None => st,
        }
    } else {
        match parse_u8_spec(t) {
            Some(n) => Style { foreground: Some(Color::Color256(n)), ..st },
            None => st,
        }
    }
}

/// Compares a token with a pattern, byte for byte.
fn tok_eq(t: &[u8], pat: &str) -> (b: bool)
    ensures
        b == (t@ == pat.spec_bytes()),
{
    let p = pat.as_bytes();
    if t.len() != p.len() {
        return false;
    }
    let mut i: usize = 0;
    while i < t.len()
        invariant
            t@.len() == p@.len(),
            p@ == pat.spec_bytes(),
            i <= t@.len(),
            forall|j: int| 0 <= j < i ==> t@[j] == p@[j],
        decreases t@.len() - i,
    {
        if t[i] != p[i] {
            return false;
        }
        i += 1;
    }
    proof {
        assert(t@ =~= p@);
    }
    true
}

/// Applies one token to a running style.
pub fn apply_token(st: Style, t: &[u8]) -> (r: Style)
    ensures
        r == spec_apply_token(st, t@),
{
    proof {
        reveal(spec_apply_token);
    }
    if tok_eq(t, "black") {
        Style { foreground: Some(Color::Black), ..st }
    } else if tok_eq(t, "red") {
        Style { foreground: Some(Color::Red), ..st }
    } else if tok_eq(t, "green") {
        Style { foreground: Some(Color::Green), ..st }
    } else if tok_eq(t, "yellow") {
        Style { foreground: Some(Color::Yellow), ..st }
    } else if tok_eq(t, "blue") {
        Style { foreground: Some(Color::Blue), ..st }
    } else if tok_eq(t, "magenta") {
        Style { foreground: Some(Color::Magenta), ..st }
    } else if tok_eq(t, "cyan") {
        Style { foreground: Some(Color::Cyan), ..st }
    } else if tok_eq(t, "white") {
        Style { foreground: Some(Color::White), ..st }
    } else if tok_eq(t, "bright") {
        Style { fg_bright: true, ..st }
    } else if tok_eq(t, "on_black") {
        Style { background: Some(Color::Black), ..st }
    } else if tok_eq(t, "on_red") {
        Style { background: Some(Color::Red), ..st }
    } else if tok_eq(t, "on_green") {
        Style { background: Some(Color::Green), ..st }
    } else if tok_eq(t, "on_yellow") {
        Style { background: Some(Color::Yellow), ..st }
    } else if tok_eq(t, "on_blue") {
        Style { background: Some(Color::Blue), ..st }
    } else if tok_eq(t, "on_magenta") {
        Style { background: Some(Color::Magenta), ..st }
    } else if tok_eq(t, "on_cyan") {
        Style { background: Some(Color::Cyan), ..st }
    } else if tok_eq(t, "on_white") {
        Style { background: Some(Color::White), ..st }
    } else if tok_eq(t, "on_bright") {
        Style { bg_bright: true, ..st }
    } else if tok_eq(t, "bold") {
        Style { attributes: st.attributes.insert(Attribute::Bold), ..st }
    } else if tok_eq(t, "dim") {
        Style { attributes: st.attributes.insert(Attribute::Dim), ..st }
    } else if tok_eq(t, "italic") {
        Style { attributes: st.attributes.insert(Attribute::Italic), ..st }
    } else if tok_eq(t, "underlined") {
        Style { attributes: st.attributes.insert(Attribute::Underlined), ..st }
    } else if tok_eq(t, "blink") {
        Style { attributes: st.attributes.insert(Attribute::Blink), ..st }
    } else if tok_eq(t, "reverse") {
        Style { attributes: st.attributes.insert(Attribute::Reverse), ..st }
    } else if tok_eq(t, "hidden") {
        Style { attributes: st.attributes.insert(Attribute::Hidden), ..st }
    } else if t.len() > 3 && t[0] == 111 && t[1] == 110 && t[2] == 95 {
        let rest = slice_subrange(t, 3, t.len());
        proof {
            assert(rest@ =~= t@.skip(3));
        }
        match parse_u8(rest) {
            Some(n) => Style { background: Some(Color::Color256(n)), ..st },
            None => st,
        }
    } else {
        match parse_u8(t) {
            Some(n) => Style { foreground: Some(Color::Color256(n)), ..st },
            None => st,
        }
    }
}

/// Applies a token if it is non-empty; empty tokens are skipped.
pub open spec fn spec_apply_maybe(st: Style, tok: Seq<u8>) -> Style {
    if tok.len() == 0 {
        st
    } else {
        spec_apply_token(st, tok)
    }
}

/// Folds the rest of a dotted token string into a style, given the style so
/// far and the token accumulated so far.
pub open spec fn spec_decode_rec(st: Style, tok: Seq<u8>, s: Seq<u8>) -> Style
    decreases s.len(),
{
    if s.len() == 0 {
        spec_apply_maybe(st, tok)
    } else if s[0] == 46 {
        spec_decode_rec(spec_apply_maybe(st, tok), Seq::empty(), s.skip(1))
    } else {
        spec_decode_rec(st, tok.push(s[0]), s.skip(1))
    }
}

/// The style described by a dotted token string: split on `.`, fold each
/// non-empty token into the default style.
pub open spec fn spec_decode(s: Seq<u8>) -> Style {
    spec_decode_rec(Style::spec_default(), Seq::empty(), s)
}

/// Decodes a dotted token string into a style.
pub fn decode_style(s: &[u8]) -> (r: Style)
    ensures
        r == spec_decode(s@),
{
    let mut st = Style::new();
    let mut tok: Vec<u8> = Vec::new();
    let mut i: usize = 0;
    proof {
        assert(s@.skip(0) =~= s@);
    }
    while i < s.len()
        invariant
            i <= s@.len(),
            spec_decode(s@) == spec_decode_rec(st, tok@, s@.skip(i as int)),
        decreases s@.len() - i,
    {
        proof {
            assert(s@.skip(i as int)[0] == s@[i as int]);
            assert(s@.skip(i as int).skip(1) =~= s@.skip(i + 1));
        }
        let b = s[i];
        if b == 46 {
            if tok.len() > 0 {
                st = apply_token(st, tok.as_slice());
            }
            tok.clear();
        } else {
            tok.push(b);
        }
        i += 1;
    }
    proof {
        assert(s@.skip(s@.len() as int) =~= Seq::<u8>::empty());
    }
    if tok.len() > 0 {
        st = apply_token(st, tok.as_slice());
    }
    st
}

/// Applying the same token twice yields the same style as applying it once:
/// every token either overwrites a field with a constant, inserts into the
/// attribute set, or does nothing.
#[verifier::rlimit(50)]
pub proof fn lemma_apply_token_idempotent(st: Style, t: Seq<u8>)
    ensures
        spec_apply_token(spec_apply_token(st, t), t) == spec_apply_token(st, t),
{
    reveal(spec_apply_token);
}

} // verus!
