//! The template scanner: a single left-to-right pass compiles a template
//! string into an ordered sequence of parts.
//!
//! The grammar is byte-wise and ASCII-oriented. `{key}` opens a placeholder;
//! `{{` and `}}` escape literal braces; a newline becomes its own part. After
//! the key, `:` introduces alignment (`<`, `^`, `>`), decimal width, `!` for
//! truncation, and `.`-introduced style tokens, with `/` separating a first
//! and an alternative style. Whitespace where a key is expected abandons the
//! placeholder and degrades it to literal text. A `(state, byte)` pair
//! outside the grammar is a scan fault, reported as `None`, never a panic.

use vstd::prelude::*;

use crate::ascii::{
    all_digits, dec_value, digit_byte, is_digit_byte, is_ws_byte, lemma_dec_value_take_le,
    lemma_dec_value_take_step, ws_byte,
};
use crate::style::{decode_style, spec_decode, Style};
use vstd::string::StringSliceAdditionalSpecFns;

verus! {

/// How a placeholder's substituted value is aligned inside its width.
#[derive(Clone, Copy, PartialEq, Eq, Debug)]
pub enum Alignment {
    Left,
    Center,
    Right,
}

/// A named substitution site, with its formatting directives.
#[derive(Clone, PartialEq, Eq, Debug)]
pub struct Placeholder {
    /// The substitution variable; never empty.
    pub key: Vec<u8>,
    /// Alignment inside the padded width; `Left` when not given.
    pub align: Alignment,
    /// Padded width; `None` means no padding.
    pub width: Option<usize>,
    /// Whether a value longer than the width is cut rather than overflowing.
    pub truncate: bool,
    /// Style of the rendered value.
    pub style: Option<Style>,
    /// Alternate style, from the second dotted segment.
    pub alt_style: Option<Style>,
}

/// One compiled part of a template.
#[derive(Clone, PartialEq, Eq, Debug)]
pub enum TemplatePart {
    /// An opaque byte run, emitted verbatim.
    Literal(Vec<u8>),
    /// A named substitution site.
    Placeholder(Placeholder),
    /// An explicit line break, distinct from a literal holding a newline.
    NewLine,
}

/// The compiled template: its parts in emission order.
#[derive(Clone, PartialEq, Eq, Debug)]
pub struct Template {
    /// The parts, in emission order.
    pub parts: Vec<TemplatePart>,
}

/// Mathematical image of a [`Placeholder`].
#[verifier::ext_equal]
pub struct PlaceholderModel {
    pub key: Seq<u8>,
    pub align: Alignment,
    pub width: Option<usize>,
    pub truncate: bool,
    pub style: Option<Style>,
    pub alt_style: Option<Style>,
}

/// Mathematical image of a [`TemplatePart`].
#[verifier::ext_equal]
pub enum PartModel {
    Literal(Seq<u8>),
    Placeholder(PlaceholderModel),
    NewLine,
}

impl View for Placeholder {
    type V = PlaceholderModel;

    open spec fn view(&self) -> PlaceholderModel {
        PlaceholderModel {
            key: self.key@,
            align: self.align,
            width: self.width,
            truncate: self.truncate,
            style: self.style,
            alt_style: self.alt_style,
        }
    }
}

impl View for TemplatePart {
    type V = PartModel;

    open spec fn view(&self) -> PartModel {
        match self {
            TemplatePart::Literal(text) => PartModel::Literal(text@),
            TemplatePart::Placeholder(p) => PartModel::Placeholder(p@),
            TemplatePart::NewLine => PartModel::NewLine,
        }
    }
}

impl View for Template {
    type V = Seq<PartModel>;

    open spec fn view(&self) -> Seq<PartModel> {
        parts_model(self.parts@)
    }
}

/// The scanner's states.
#[derive(Clone, Copy, PartialEq, Eq, Debug)]
pub enum State {
    Literal,
    MaybeOpen,
    DoubleClose,
    Key,
    Align,
    Width,
    FirstStyle,
    AltStyle,
}

/// The scanner's whole configuration: current state, accumulation buffer,
/// and the parts emitted so far.
#[verifier::ext_equal]
pub struct ScanState {
    pub state: State,
    pub buf: Seq<u8>,
    pub parts: Seq<PartModel>,
}

/// The scanner's starting configuration.
pub open spec fn init_scan() -> ScanState {
    ScanState { state: State::Literal, buf: Seq::empty(), parts: Seq::empty() }
}

/// A placeholder as first emitted when its key closes: everything at its
/// default except the key and, for the `!` shortcut, truncation.
pub open spec fn fresh_placeholder(key: Seq<u8>, truncate: bool) -> PlaceholderModel {
    PlaceholderModel {
        key,
        align: Alignment::Left,
        width: None,
        truncate,
        style: None,
        alt_style: None,
    }
}

/// Appends a placeholder for the buffered key, if any key text is buffered.
pub open spec fn emit_key(parts: Seq<PartModel>, key: Seq<u8>, truncate: bool) -> Seq<PartModel> {
    if key.len() > 0 {
        parts.push(PartModel::Placeholder(fresh_placeholder(key, truncate)))
    } else {
        parts
    }
}

/// The most recently emitted part with its alignment rewritten, if that part
/// is a placeholder.
pub open spec fn patch_align(parts: Seq<PartModel>, a: Alignment) -> Seq<PartModel> {
    if parts.len() > 0 {
        match parts.last() {
            PartModel::Placeholder(p) => parts.update(
                parts.len() - 1,
                PartModel::Placeholder(PlaceholderModel { align: a, ..p }),
            ),
            _ => parts,
        }
    } else {
        parts
    }
}

/// The most recently emitted part with truncation switched on, if that part
/// is a placeholder.
pub open spec fn patch_truncate(parts: Seq<PartModel>) -> Seq<PartModel> {
    if parts.len() > 0 {
        match parts.last() {
            PartModel::Placeholder(p) => parts.update(
                parts.len() - 1,
                PartModel::Placeholder(PlaceholderModel { truncate: true, ..p }),
            ),
            _ => parts,
        }
    } else {
        parts
    }
}

/// The most recently emitted part with its width set, if that part is a
/// placeholder.
pub open spec fn patch_width(parts: Seq<PartModel>, w: usize) -> Seq<PartModel> {
    if parts.len() > 0 {
        match parts.last() {
            PartModel::Placeholder(p) => parts.update(
                parts.len() - 1,
                PartModel::Placeholder(PlaceholderModel { width: Some(w), ..p }),
            ),
            _ => parts,
        }
    } else {
        parts
    }
}

/// The most recently emitted part with its style set, if that part is a
/// placeholder.
pub open spec fn patch_style(parts: Seq<PartModel>, style: Style) -> Seq<PartModel> {
    if parts.len() > 0 {
        match parts.last() {
            PartModel::Placeholder(p) => parts.update(
                parts.len() - 1,
                PartModel::Placeholder(PlaceholderModel { style: Some(style), ..p }),
            ),
            _ => parts,
        }
    } else {
        parts
    }
}

/// The most recently emitted part with its alternate style set, if that part
/// is a placeholder.
pub open spec fn patch_alt_style(parts: Seq<PartModel>, style: Style) -> Seq<PartModel> {
    if parts.len() > 0 {
        match parts.last() {
            PartModel::Placeholder(p) => parts.update(
                parts.len() - 1,
                PartModel::Placeholder(PlaceholderModel { alt_style: Some(style), ..p }),
            ),
            _ => parts,
        }
    } else {
        parts
    }
}

/// Whitespace where a key was expected: everything from the opening brace is
/// re-emitted as literal text, the whitespace included, and scanning returns
/// to literal state.
pub open spec fn backtrack(st: ScanState, c: u8) -> ScanState {
    ScanState {
        state: State::Literal,
        buf: Seq::empty(),
        parts: st.parts.push(PartModel::Literal(seq![123u8] + st.buf + seq![c])),
    }
}

/// The buffered width digits parsed as a `usize`, or nothing when the digits
/// do not fit the machine word.
pub open spec fn parse_width_spec(s: Seq<u8>) -> Option<usize> {
    if s.len() > 0 && all_digits(s) && dec_value(s) <= usize::MAX {
        Some(dec_value(s) as usize)
    } else {
        None
    }
}

/// Closes the width field: an empty buffer leaves the width at its default,
/// digits that fit become the width, digits that overflow are a fault.
pub open spec fn flush_width(st: ScanState, next: State) -> Option<ScanState> {
    if st.buf.len() == 0 {
        Some(ScanState { state: next, ..st })
    } else {
        match parse_width_spec(st.buf) {
            Some(w) => Some(
                ScanState { state: next, buf: Seq::empty(), parts: patch_width(st.parts, w) },
            ),
            None => None,
        }
    }
}

/// Closes the first style segment: a non-empty buffer is decoded and stored.
pub open spec fn flush_style(st: ScanState, next: State) -> ScanState {
    if st.buf.len() == 0 {
        ScanState { state: next, ..st }
    } else {
        ScanState {
            state: next,
            buf: Seq::empty(),
            parts: patch_style(st.parts, spec_decode(st.buf)),
        }
    }
}

/// Closes the alternate style segment.
pub open spec fn flush_alt_style(st: ScanState, next: State) -> ScanState {
    if st.buf.len() == 0 {
        ScanState { state: next, ..st }
    } else {
        ScanState {
            state: next,
            buf: Seq::empty(),
            parts: patch_alt_style(st.parts, spec_decode(st.buf)),
        }
    }
}

/// One byte driven through the scanner's transition table. `None` is a scan
/// fault: the `(state, byte)` pair lies outside the grammar.
pub open spec fn scan_step(st: ScanState, c: u8) -> Option<ScanState> {
    match st.state {
        State::Literal => {
            if c == 123 {  // `{`
                Some(ScanState { state: State::MaybeOpen, ..st })
            } else if c == 10 {  // newline
                let flushed = if st.buf.len() > 0 {
                    st.parts.push(PartModel::Literal(st.buf))
                } else {
                    st.parts
                };
                Some(
                    ScanState {
                        state: State::Literal,
                        buf: Seq::empty(),
                        parts: flushed.push(PartModel::NewLine),
                    },
                )
            } else if c == 125 {  // `}`
                Some(ScanState { state: State::DoubleClose, buf: st.buf.push(c), ..st })
            } else {
                Some(ScanState { state: State::Literal, buf: st.buf.push(c), ..st })
            }
        },
        State::DoubleClose => {
            if c == 125 {  // `}`: the buffer already holds the first one
                Some(ScanState { state: State::Literal, ..st })
            } else {
                None
            }
        },
        State::MaybeOpen => {
            if c == 123 {  // `{{` escapes to a literal brace
                Some(ScanState { state: State::Literal, buf: st.buf.push(c), ..st })
            } else if is_ws_byte(c) {
                Some(backtrack(st, c))
            } else if c == 125 || c == 58 {  // `}` or `:`: no key to open
                None
            } else {
                let flushed = if st.buf.len() > 0 {
                    st.parts.push(PartModel::Literal(st.buf))
                } else {
                    st.parts
                };
                Some(ScanState { state: State::Key, buf: seq![c], parts: flushed })
            }
        },
        State::Key => {
            if is_ws_byte(c) {
                Some(backtrack(st, c))
            } else if c == 58 {  // `:`
                Some(
                    ScanState {
                        state: State::Align,
                        buf: Seq::empty(),
                        parts: emit_key(st.parts, st.buf, false),
                    },
                )
            } else if c == 125 {  // `}`
                Some(
                    ScanState {
                        state: State::Literal,
                        buf: Seq::empty(),
                        parts: emit_key(st.parts, st.buf, false),
                    },
                )
            } else if c == 33 && st.buf.len() > 0 {  // `!`: truncation shortcut
                Some(
                    ScanState {
                        state: State::Width,
                        buf: Seq::empty(),
                        parts: emit_key(st.parts, st.buf, true),
                    },
                )
            } else {
                Some(ScanState { state: State::Key, buf: st.buf.push(c), ..st })
            }
        },
        State::Align => {
            if c == 60 {  // `<`
                Some(
                    ScanState {
                        state: State::Width,
                        parts: patch_align(st.parts, Alignment::Left),
                        ..st
                    },
                )
            } else if c == 94 {  // `^`
                Some(
                    ScanState {
                        state: State::Width,
                        parts: patch_align(st.parts, Alignment::Center),
                        ..st
                    },
                )
            } else if c == 62 {  // `>`
                Some(
                    ScanState {
                        state: State::Width,
                        parts: patch_align(st.parts, Alignment::Right),
                        ..st
                    },
                )
            } else if is_digit_byte(c) {
                Some(ScanState { state: State::Width, buf: st.buf.push(c), ..st })
            } else if c == 33 {  // `!`
                Some(
                    ScanState { state: State::Width, parts: patch_truncate(st.parts), ..st },
                )
            } else if c == 46 {  // `.`
                Some(ScanState { state: State::FirstStyle, ..st })
            } else if c == 125 {  // `}`
                Some(ScanState { state: State::Literal, ..st })
            } else {
                None
            }
        },
        State::Width => {
            if is_digit_byte(c) {
                Some(ScanState { state: State::Width, buf: st.buf.push(c), ..st })
            } else if c == 33 {  // `!`
                Some(
                    ScanState { state: State::Width, parts: patch_truncate(st.parts), ..st },
                )
            } else if c == 46 {  // `.`
                flush_width(st, State::FirstStyle)
            } else if c == 125 {  // `}`
                flush_width(st, State::Literal)
            } else {
                None
            }
        },
        State::FirstStyle => {
            if c == 47 {  // `/`
                Some(flush_style(st, State::AltStyle))
            } else if c == 125 {  // `}`
                Some(flush_style(st, State::Literal))
            } else {
                Some(ScanState { state: State::FirstStyle, buf: st.buf.push(c), ..st })
            }
        },
        State::AltStyle => {
            if c == 125 {  // `}`
                Some(flush_alt_style(st, State::Literal))
            } else {
                Some(ScanState { state: State::AltStyle, buf: st.buf.push(c), ..st })
            }
        },
    }
}

/// Drives the scanner over a byte sequence, from a given configuration.
pub open spec fn scan_from(st: ScanState, s: Seq<u8>) -> Option<ScanState>
    decreases s.len(),
{
    if s.len() == 0 {
        Some(st)
    } else {
        match scan_step(st, s[0]) {
            Some(st2) => scan_from(st2, s.skip(1)),
            None => None,
        }
    }
}

/// The final flush: input ending mid-literal emits one last literal part.
/// Other terminal states lose their unflushed buffer.
pub open spec fn scan_finish(st: ScanState) -> Seq<PartModel> {
    if (st.state == State::Literal || st.state == State::DoubleClose) && st.buf.len() > 0 {
        st.parts.push(PartModel::Literal(st.buf))
    } else {
        st.parts
    }
}

/// The parts a byte sequence scans to, or `None` on a scan fault.
pub open spec fn scan_bytes(s: Seq<u8>) -> Option<Seq<PartModel>> {
    match scan_from(init_scan(), s) {
        Some(st) => Some(scan_finish(st)),
        None => None,
    }
}

/// The byte sequence drives the scanner through defined transitions only.
pub open spec fn scan_ok(s: Seq<u8>) -> bool {
    scan_bytes(s) is Some
}

/// The models of a sequence of emitted parts.
pub open spec fn parts_model(parts: Seq<TemplatePart>) -> Seq<PartModel> {
    parts.map_values(|p: TemplatePart| p@)
}

/// The states during which a placeholder is under construction.
pub open spec fn in_placeholder(state: State) -> bool {
    state == State::Align || state == State::Width || state == State::FirstStyle || state
        == State::AltStyle
}

/// What the scanner's working variables stand for in the model: while a
/// placeholder is under construction, the model has already emitted it as the
/// last part, so the builder value is appended to the emitted parts.
pub open spec fn abs_state(
    state: State,
    buf: Seq<u8>,
    parts: Seq<PartModel>,
    cur: PlaceholderModel,
) -> ScanState {
    ScanState {
        state,
        buf,
        parts: if in_placeholder(state) {
            parts.push(PartModel::Placeholder(cur))
        } else {
            parts
        },
    }
}

/// Buffer facts the scanner maintains in each state: a key in progress is
/// never empty, the alignment state buffers nothing, and the width state
/// buffers digits only.
pub open spec fn scan_wf(state: State, buf: Seq<u8>) -> bool {
    &&& state == State::Key ==> buf.len() > 0
    &&& state == State::Align ==> buf.len() == 0
    &&& state == State::Width ==> all_digits(buf)
}

proof fn lemma_parts_model_push(parts: Seq<TemplatePart>, p: TemplatePart)
    ensures
        parts_model(parts.push(p)) == parts_model(parts).push(p@),
{
    assert(parts_model(parts.push(p)) =~= parts_model(parts).push(p@));
}

proof fn lemma_patch_align_push(s: Seq<PartModel>, p: PlaceholderModel, a: Alignment)
    ensures
        patch_align(s.push(PartModel::Placeholder(p)), a) == s.push(
            PartModel::Placeholder(PlaceholderModel { align: a, ..p }),
        ),
{
    assert(patch_align(s.push(PartModel::Placeholder(p)), a) =~= s.push(
        PartModel::Placeholder(PlaceholderModel { align: a, ..p }),
    ));
}

proof fn lemma_patch_truncate_push(s: Seq<PartModel>, p: PlaceholderModel)
    ensures
        patch_truncate(s.push(PartModel::Placeholder(p))) == s.push(
            PartModel::Placeholder(PlaceholderModel { truncate: true, ..p }),
        ),
{
    assert(patch_truncate(s.push(PartModel::Placeholder(p))) =~= s.push(
        PartModel::Placeholder(PlaceholderModel { truncate: true, ..p }),
    ));
}

proof fn lemma_patch_width_push(s: Seq<PartModel>, p: PlaceholderModel, w: usize)
    ensures
        patch_width(s.push(PartModel::Placeholder(p)), w) == s.push(
            PartModel::Placeholder(PlaceholderModel { width: Some(w), ..p }),
        ),
{
    assert(patch_width(s.push(PartModel::Placeholder(p)), w) =~= s.push(
        PartModel::Placeholder(PlaceholderModel { width: Some(w), ..p }),
    ));
}

proof fn lemma_patch_style_push(s: Seq<PartModel>, p: PlaceholderModel, sty: Style)
    ensures
        patch_style(s.push(PartModel::Placeholder(p)), sty) == s.push(
            PartModel::Placeholder(PlaceholderModel { style: Some(sty), ..p }),
        ),
{
    assert(patch_style(s.push(PartModel::Placeholder(p)), sty) =~= s.push(
        PartModel::Placeholder(PlaceholderModel { style: Some(sty), ..p }),
    ));
}

proof fn lemma_patch_alt_style_push(s: Seq<PartModel>, p: PlaceholderModel, sty: Style)
    ensures
        patch_alt_style(s.push(PartModel::Placeholder(p)), sty) == s.push(
            PartModel::Placeholder(PlaceholderModel { alt_style: Some(sty), ..p }),
        ),
{
    assert(patch_alt_style(s.push(PartModel::Placeholder(p)), sty) =~= s.push(
        PartModel::Placeholder(PlaceholderModel { alt_style: Some(sty), ..p }),
    ));
}

/// Parses buffered width digits into a `usize`; digits whose value does not
/// fit the machine word are rejected.
fn parse_width(t: &[u8]) -> (r: Option<usize>)
    ensures
        r == parse_width_spec(t@),
{
    if t.len() == 0 {
        return None;
    }
    let mut acc: usize = 0;
    let mut i: usize = 0;
    while i < t.len()
        invariant
            i <= t@.len(),
            all_digits(t@.take(i as int)),
            acc == dec_value(t@.take(i as int)),
        decreases t@.len() - i,
    {
        let b = t[i];
        if !(48 <= b && b <= 57) {
            assert(!all_digits(t@)) by {
                assert(!is_digit_byte(t@[i as int]));
            }
            return None;
        }
        proof {
            lemma_dec_value_take_step(t@, i as int);
            assert(forall|j: int| 0 <= j < i + 1 ==> is_digit_byte(#[trigger] t@.take(i + 1)[j]));
        }
        let d = (b - 48) as usize;
        if acc > usize::MAX / 10 || (acc == usize::MAX / 10 && d > usize::MAX % 10) {
            proof {
                assert(dec_value(t@.take(i + 1)) > usize::MAX);
                if all_digits(t@) {
                    lemma_dec_value_take_le(t@, i + 1);
                }
            }
            return None;
        }
        acc = acc * 10 + d;
        i += 1;
    }
    proof {
        assert(t@.take(t@.len() as int) =~= t@);
    }
    Some(acc)
}

/// Re-emits an abandoned placeholder opening as literal text: the opening
/// brace, the buffered key text, and the whitespace byte that ended it.
fn backtrack_exec(buf: Vec<u8>, parts: Vec<TemplatePart>, c: u8) -> (r: (Vec<u8>, Vec<TemplatePart>))
    ensures
        r.0@ == Seq::<u8>::empty(),
        parts_model(r.1@) == parts_model(parts@).push(
            PartModel::Literal(seq![123u8] + buf@ + seq![c]),
        ),
{
    let ghost b0 = buf@;
    let ghost pm0 = parts_model(parts@);
    let mut buf = buf;
    let mut parts = parts;
    let mut lit: Vec<u8> = Vec::new();
    lit.push(123);
    lit.append(&mut buf);
    lit.push(c);
    proof {
        assert(lit@ =~= seq![123u8] + b0 + seq![c]);
        assert(buf@ =~= Seq::<u8>::empty());
        lemma_parts_model_push(parts@, TemplatePart::Literal(lit));
    }
    parts.push(TemplatePart::Literal(lit));
    proof {
        assert(parts_model(parts@) =~= pm0.push(PartModel::Literal(seq![123u8] + b0 + seq![c])));
    }
    (buf, parts)
}

/// Appends the finished placeholder to the emitted parts and hands back a
/// blank builder.
fn close_placeholder(parts: Vec<TemplatePart>, cur: Placeholder) -> (r: (
    Vec<TemplatePart>,
    Placeholder,
))
    ensures
        parts_model(r.0@) == parts_model(parts@).push(PartModel::Placeholder(cur@)),
{
    let ghost pm0 = parts_model(parts@);
    let ghost cv = cur@;
    let mut parts = parts;
    parts.push(TemplatePart::Placeholder(cur));
    proof {
        assert(parts_model(parts@) =~= pm0.push(PartModel::Placeholder(cv)));
    }
    let blank = Placeholder {
        key: Vec::new(),
        align: Alignment::Left,
        width: None,
        truncate: false,
        style: None,
        alt_style: None,
    };
    (parts, blank)
}

/// One byte driven through the scanner, on the executable working state.
/// Returns `None` exactly where the model faults.
#[verifier::rlimit(60)]
fn step_exec(state: State, buf: Vec<u8>, parts: Vec<TemplatePart>, cur: Placeholder, c: u8) -> (r:
    Option<(State, Vec<u8>, Vec<TemplatePart>, Placeholder)>)
    requires
        scan_wf(state, buf@),
    ensures
        match r {
            Some(t) => {
                &&& scan_step(abs_state(state, buf@, parts_model(parts@), cur@), c) == Some(
                    abs_state(t.0, t.1@, parts_model(t.2@), t.3@),
                )
                &&& scan_wf(t.0, t.1@)
            },
            None => scan_step(abs_state(state, buf@, parts_model(parts@), cur@), c) is None,
        },
{
    let ghost st0 = abs_state(state, buf@, parts_model(parts@), cur@);
    let mut buf = buf;
    let mut parts = parts;
    let mut cur = cur;
    match state {
        State::Literal => {
            if c == 123 {
                Some((State::MaybeOpen, buf, parts, cur))
            } else if c == 10 {
                let ghost pm0 = parts_model(parts@);
                let ghost b0 = buf@;
                if buf.len() > 0 {
                    let ghost lit = TemplatePart::Literal(buf);
                    proof {
                        lemma_parts_model_push(parts@, lit);
                    }
                    parts.push(TemplatePart::Literal(buf));
                    buf = Vec::new();
                } else {
                    proof {
                        assert(b0 =~= Seq::<u8>::empty());
                    }
                }
                proof {
                    lemma_parts_model_push(parts@, TemplatePart::NewLine);
                }
                parts.push(TemplatePart::NewLine);
                Some((State::Literal, buf, parts, cur))
            } else if c == 125 {
                buf.push(c);
                Some((State::DoubleClose, buf, parts, cur))
            } else {
                buf.push(c);
                Some((State::Literal, buf, parts, cur))
            }
        },
        State::DoubleClose => {
            if c == 125 {
                Some((State::Literal, buf, parts, cur))
            } else {
                None
            }
        },
        State::MaybeOpen => {
            if c == 123 {
                buf.push(c);
                Some((State::Literal, buf, parts, cur))
            } else if ws_byte(c) {
                let r = backtrack_exec(buf, parts, c);
                Some((State::Literal, r.0, r.1, cur))
            } else if c == 125 || c == 58 {
                None
            } else {
                let ghost b0 = buf@;
                if buf.len() > 0 {
                    let ghost lit = TemplatePart::Literal(buf);
                    proof {
                        lemma_parts_model_push(parts@, lit);
                    }
                    parts.push(TemplatePart::Literal(buf));
                    buf = Vec::new();
                } else {
                    proof {
                        assert(b0 =~= Seq::<u8>::empty());
                    }
                }
                buf.push(c);
                proof {
                    assert(buf@ =~= seq![c]);
                }
                Some((State::Key, buf, parts, cur))
            }
        },
        State::Key => {
            if ws_byte(c) {
                let r = backtrack_exec(buf, parts, c);
                Some((State::Literal, r.0, r.1, cur))
            } else if c == 58 {
                let ghost b0 = buf@;
                let fresh = Placeholder {
                    key: buf,
                    align: Alignment::Left,
                    width: None,
                    truncate: false,
                    style: None,
                    alt_style: None,
                };
                proof {
                    assert(fresh@ =~= fresh_placeholder(b0, false));
                }
                Some((State::Align, Vec::new(), parts, fresh))
            } else if c == 125 {
                let ghost b0 = buf@;
                let ghost pm0 = parts_model(parts@);
                let done = Placeholder {
                    key: buf,
                    align: Alignment::Left,
                    width: None,
                    truncate: false,
                    style: None,
                    alt_style: None,
                };
                proof {
                    assert(done@ =~= fresh_placeholder(b0, false));
                    lemma_parts_model_push(parts@, TemplatePart::Placeholder(done));
                }
                parts.push(TemplatePart::Placeholder(done));
                Some((State::Literal, Vec::new(), parts, cur))
            } else if c == 33 {
                let ghost b0 = buf@;
                let fresh = Placeholder {
                    key: buf,
                    align: Alignment::Left,
                    width: None,
                    truncate: true,
                    style: None,
                    alt_style: None,
                };
                proof {
                    assert(fresh@ =~= fresh_placeholder(b0, true));
                }
                Some((State::Width, Vec::new(), parts, fresh))
            } else {
                buf.push(c);
                Some((State::Key, buf, parts, cur))
            }
        },
        State::Align => {
            if c == 60 {
                proof {
                    lemma_patch_align_push(parts_model(parts@), cur@, Alignment::Left);
                }
                cur.align = Alignment::Left;
                Some((State::Width, buf, parts, cur))
            } else if c == 94 {
                proof {
                    lemma_patch_align_push(parts_model(parts@), cur@, Alignment::Center);
                }
                cur.align = Alignment::Center;
                Some((State::Width, buf, parts, cur))
            } else if c == 62 {
                proof {
                    lemma_patch_align_push(parts_model(parts@), cur@, Alignment::Right);
                }
                cur.align = Alignment::Right;
                Some((State::Width, buf, parts, cur))
            } else if digit_byte(c) {
                buf.push(c);
                proof {
                    assert(buf@ =~= seq![c]);
                }
                Some((State::Width, buf, parts, cur))
            } else if c == 33 {
                proof {
                    lemma_patch_truncate_push(parts_model(parts@), cur@);
                }
                cur.truncate = true;
                Some((State::Width, buf, parts, cur))
            } else if c == 46 {
                Some((State::FirstStyle, buf, parts, cur))
            } else if c == 125 {
                let r = close_placeholder(parts, cur);
                Some((State::Literal, buf, r.0, r.1))
            } else {
                None
            }
        },
        State::Width => {
            if digit_byte(c) {
                let ghost b0 = buf@;
                buf.push(c);
                proof {
                    assert(forall|j: int|
                        0 <= j < buf@.len() ==> is_digit_byte(#[trigger] buf@[j]));
                }
                Some((State::Width, buf, parts, cur))
            } else if c == 33 {
                proof {
                    lemma_patch_truncate_push(parts_model(parts@), cur@);
                }
                cur.truncate = true;
                Some((State::Width, buf, parts, cur))
            } else if c == 46 || c == 125 {
                if buf.len() == 0 {
                    proof {
                        assert(buf@ =~= Seq::<u8>::empty());
                    }
                    if c == 46 {
                        Some((State::FirstStyle, buf, parts, cur))
                    } else {
                        let r = close_placeholder(parts, cur);
                        Some((State::Literal, buf, r.0, r.1))
                    }
                } else {
                    match parse_width(buf.as_slice()) {
                        Some(w) => {
                            proof {
                                lemma_patch_width_push(parts_model(parts@), cur@, w);
                            }
                            cur.width = Some(w);
                            buf.clear();
                            if c == 46 {
                                Some((State::FirstStyle, buf, parts, cur))
                            } else {
                                let r = close_placeholder(parts, cur);
                                Some((State::Literal, buf, r.0, r.1))
                            }
                        },
                        None => None,
                    }
                }
            } else {
                None
            }
        },
        State::FirstStyle => {
            if c == 47 || c == 125 {
                if buf.len() > 0 {
                    let sty = decode_style(buf.as_slice());
                    proof {
                        lemma_patch_style_push(parts_model(parts@), cur@, sty);
                    }
                    cur.style = Some(sty);
                    buf.clear();
                } else {
                    proof {
                        assert(buf@ =~= Seq::<u8>::empty());
                    }
                }
                if c == 47 {
                    Some((State::AltStyle, buf, parts, cur))
                } else {
                    let r = close_placeholder(parts, cur);
                    Some((State::Literal, buf, r.0, r.1))
                }
            } else {
                buf.push(c);
                Some((State::FirstStyle, buf, parts, cur))
            }
        },
        State::AltStyle => {
            if c == 125 {
                if buf.len() > 0 {
                    let sty = decode_style(buf.as_slice());
                    proof {
                        lemma_patch_alt_style_push(parts_model(parts@), cur@, sty);
                    }
                    cur.alt_style = Some(sty);
                    buf.clear();
                } else {
                    proof {
                        assert(buf@ =~= Seq::<u8>::empty());
                    }
                }
                let r = close_placeholder(parts, cur);
                Some((State::Literal, buf, r.0, r.1))
            } else {
                buf.push(c);
                Some((State::AltStyle, buf, parts, cur))
            }
        },
    }
}

impl Template {
    /// Scans a byte sequence into a template. Returns `None` exactly where
    /// the byte sequence drives the scanner outside its grammar.
    pub fn scan(bytes: &[u8]) -> (r: Option<Template>)
        ensures
            match r {
                Some(t) => scan_bytes(bytes@) == Some(t@),
                None => !scan_ok(bytes@),
            },
    {
        let ghost s = bytes@;
        let mut state = State::Literal;
        let mut buf: Vec<u8> = Vec::new();
        let mut parts: Vec<TemplatePart> = Vec::new();
        let mut cur = Placeholder {
            key: Vec::new(),
            align: Alignment::Left,
            width: None,
            truncate: false,
            style: None,
            alt_style: None,
        };
        let mut i: usize = 0;
        proof {
            assert(s.skip(0) =~= s);
            assert(parts_model(parts@) =~= Seq::<PartModel>::empty());
            assert(abs_state(state, buf@, parts_model(parts@), cur@) =~= init_scan());
        }
        while i < bytes.len()
            invariant
                i <= s.len(),
                bytes@ == s,
                scan_wf(state, buf@),
                scan_from(init_scan(), s) == scan_from(
                    abs_state(state, buf@, parts_model(parts@), cur@),
                    s.skip(i as int),
                ),
            decreases s.len() - i,
        {
            let c = bytes[i];
            proof {
                assert(s.skip(i as int)[0] == s[i as int]);
                assert(s.skip(i as int).skip(1) =~= s.skip(i + 1));
            }
            match step_exec(state, buf, parts, cur, c) {
                Some(t) => {
                    state = t.0;
                    buf = t.1;
                    parts = t.2;
                    cur = t.3;
                },
                None => {
                    return None;
                },
            }
            i += 1;
        }
        proof {
            assert(s.skip(s.len() as int) =~= Seq::<u8>::empty());
        }
        let ghost final_abs = abs_state(state, buf@, parts_model(parts@), cur@);
        if matches!(state, State::Align | State::Width | State::FirstStyle | State::AltStyle) {
            let r = close_placeholder(parts, cur);
            parts = r.0;
            proof {
                assert(scan_finish(final_abs) == parts_model(parts@));
            }
        } else if matches!(state, State::Literal | State::DoubleClose) && buf.len() > 0 {
            proof {
                lemma_parts_model_push(parts@, TemplatePart::Literal(buf));
            }
            parts.push(TemplatePart::Literal(buf));
            proof {
                assert(scan_finish(final_abs) == parts_model(parts@));
            }
        } else {
            proof {
                assert(scan_finish(final_abs) == parts_model(parts@));
            }
        }
        Some(Template { parts })
    }

    /// Compiles a template string, or reports a scan fault as `None`.
    pub fn try_from_str(s: &str) -> (r: Option<Template>)
        ensures
            match r {
                Some(t) => scan_bytes(s.spec_bytes()) == Some(t@),
                None => !scan_ok(s.spec_bytes()),
            },
    {
        Template::scan(s.as_bytes())
    }

    /// Compiles a template string that stays inside the grammar.
    pub fn from_str(s: &str) -> (r: Template)
        requires
            scan_ok(s.spec_bytes()),
        ensures
            Some(r@) == scan_bytes(s.spec_bytes()),
    {
        match Template::try_from_str(s) {
            Some(t) => t,
            None => unreached(),
        }
    }

    /// Returns the number of parts.
    pub fn len(&self) -> (l: usize)
        ensures
            l == self@.len(),
    {
        self.parts.len()
    }
}

/// The byte plays no special role in literal text: not a brace, not a
/// newline.
pub open spec fn plain_byte(b: u8) -> bool {
    b != 123 && b != 125 && b != 10
}

/// Every byte of the sequence is plain literal text.
pub open spec fn plain_bytes(s: Seq<u8>) -> bool {
    forall|i: int| 0 <= i < s.len() ==> plain_byte(#[trigger] s[i])
}

/// Scanning a single byte is stepping once.
proof fn lemma_scan_from_one(st: ScanState, c: u8)
    ensures
        scan_from(st, seq![c]) == scan_step(st, c),
{
    assert(seq![c].skip(1) =~= Seq::<u8>::empty());
    if scan_step(st, c) is Some {
        let st2 = scan_step(st, c).unwrap();
        assert(scan_from(st2, seq![c].skip(1)) == Some(st2));
    }
}

/// Scanning a concatenation scans the first piece, then the second from
/// where the first left off.
proof fn lemma_scan_from_concat(st: ScanState, a: Seq<u8>, b: Seq<u8>)
    ensures
        scan_from(st, a + b) == match scan_from(st, a) {
            Some(mid) => scan_from(mid, b),
            None => None,
        },
    decreases a.len(),
{
    if a.len() == 0 {
        assert(a + b =~= b);
    } else {
        assert((a + b)[0] == a[0]);
        match scan_step(st, a[0]) {
            Some(st2) => {
                assert((a + b).skip(1) =~= a.skip(1) + b);
                lemma_scan_from_concat(st2, a.skip(1), b);
            },
            None => {
                assert((a + b).len() > 0);
            },
        }
    }
}

/// Plain literal text drives the scanner nowhere: it stays in literal state
/// and the text lands in the buffer, in order.
proof fn lemma_scan_literal_run(st: ScanState, s: Seq<u8>)
    requires
        st.state == State::Literal,
        plain_bytes(s),
    ensures
        scan_from(st, s) == Some(ScanState { state: State::Literal, buf: st.buf + s, ..st }),
    decreases s.len(),
{
    if s.len() == 0 {
        assert(st.buf + s =~= st.buf);
        assert(ScanState { state: State::Literal, buf: st.buf + s, ..st } =~= st);
    } else {
        let st2 = ScanState { state: State::Literal, buf: st.buf.push(s[0]), ..st };
        lemma_scan_literal_run(st2, s.skip(1));
        assert(st.buf.push(s[0]) + s.skip(1) =~= st.buf + s);
    }
}

/// Input made of plain literal text scans to exactly one literal part
/// holding that text.
pub proof fn lemma_plain_text_single_literal(s: Seq<u8>)
    requires
        s.len() > 0,
        plain_bytes(s),
    ensures
        scan_bytes(s) == Some(seq![PartModel::Literal(s)]),
{
    lemma_scan_literal_run(init_scan(), s);
    assert(Seq::<u8>::empty() + s =~= s);
    let end = ScanState { state: State::Literal, buf: s, parts: Seq::empty() };
    assert(scan_from(init_scan(), s) == Some(end));
    assert(scan_finish(end) =~= seq![PartModel::Literal(s)]);
}

/// A newline between two runs of plain literal text becomes its own part,
/// standing exactly between the two literal parts, never merged into either.
pub proof fn lemma_newline_between_literals(s1: Seq<u8>, s2: Seq<u8>)
    requires
        s1.len() > 0,
        s2.len() > 0,
        plain_bytes(s1),
        plain_bytes(s2),
    ensures
        scan_bytes(s1 + seq![10u8] + s2) == Some(
            seq![
                PartModel::Literal(s1),
                PartModel::NewLine,
                PartModel::Literal(s2),
            ],
        ),
{
    let w = s1 + seq![10u8] + s2;
    lemma_scan_from_concat(init_scan(), s1 + seq![10u8], s2);
    lemma_scan_from_concat(init_scan(), s1, seq![10u8]);
    lemma_scan_literal_run(init_scan(), s1);
    assert(Seq::<u8>::empty() + s1 =~= s1);
    let after_s1 = ScanState { state: State::Literal, buf: s1, parts: Seq::empty() };
    assert(scan_from(init_scan(), s1) == Some(after_s1));
    lemma_scan_from_one(after_s1, 10u8);
    let after_nl = ScanState {
        state: State::Literal,
        buf: Seq::empty(),
        parts: seq![PartModel::Literal(s1), PartModel::NewLine],
    };
    assert(scan_step(after_s1, 10u8) == Some(after_nl)) by {
        assert(Seq::<PartModel>::empty().push(PartModel::Literal(s1)).push(PartModel::NewLine)
            =~= seq![PartModel::Literal(s1), PartModel::NewLine]);
    }
    lemma_scan_literal_run(after_nl, s2);
    assert(Seq::<u8>::empty() + s2 =~= s2);
    let end = ScanState {
        state: State::Literal,
        buf: s2,
        parts: seq![PartModel::Literal(s1), PartModel::NewLine],
    };
    assert(scan_from(init_scan(), w) == Some(end));
    assert(scan_finish(end) =~= seq![
        PartModel::Literal(s1),
        PartModel::NewLine,
        PartModel::Literal(s2),
    ]);
}

/// Every placeholder among the parts has a non-empty key.
pub open spec fn placeholder_keys_nonempty(parts: Seq<PartModel>) -> bool {
    forall|i: int|
        0 <= i < parts.len() ==> match #[trigger] parts[i] {
            PartModel::Placeholder(p) => p.key.len() > 0,
            _ => true,
        }
}

/// The invariant the scanner maintains: emitted placeholders carry non-empty
/// keys, and a key in progress is never empty.
spec fn key_inv(st: ScanState) -> bool {
    &&& placeholder_keys_nonempty(st.parts)
    &&& st.state == State::Key ==> st.buf.len() > 0
}

proof fn lemma_step_keeps_keys(st: ScanState, c: u8)
    requires
        key_inv(st),
        scan_step(st, c) is Some,
    ensures
        key_inv(scan_step(st, c).unwrap()),
{
    let st2 = scan_step(st, c).unwrap();
    assert forall|i: int| 0 <= i < st2.parts.len() implies match #[trigger] st2.parts[i] {
        PartModel::Placeholder(p) => p.key.len() > 0,
        _ => true,
    } by {
        if i < st.parts.len() {
            assert(match st.parts[i] {
                PartModel::Placeholder(p) => p.key.len() > 0,
                _ => true,
            });
        }
    }
}

proof fn lemma_scan_from_keeps_keys(st: ScanState, s: Seq<u8>)
    requires
        key_inv(st),
        scan_from(st, s) is Some,
    ensures
        key_inv(scan_from(st, s).unwrap()),
    decreases s.len(),
{
    if s.len() > 0 {
        lemma_step_keeps_keys(st, s[0]);
        lemma_scan_from_keeps_keys(scan_step(st, s[0]).unwrap(), s.skip(1));
    }
}

/// A scanned template never holds a placeholder with an empty key: a
/// placeholder is only emitted once at least one key byte is buffered.
pub proof fn lemma_scanned_keys_nonempty(s: Seq<u8>)
    requires
        scan_ok(s),
    ensures
        placeholder_keys_nonempty(scan_bytes(s).unwrap()),
{
    lemma_scan_from_keeps_keys(init_scan(), s);
    let end = scan_from(init_scan(), s).unwrap();
    assert forall|i: int| 0 <= i < scan_finish(end).len() implies match #[trigger] scan_finish(
        end,
    )[i] {
        PartModel::Placeholder(p) => p.key.len() > 0,
        _ => true,
    } by {
        if i < end.parts.len() {
            assert(match end.parts[i] {
                PartModel::Placeholder(p) => p.key.len() > 0,
                _ => true,
            });
        }
    }
}

/// Double braces escape: `{{`, any run of plain text, then `}}` scans to
/// literal text holding a single `{`, the run, and a single `}`.
pub proof fn lemma_double_brace_escapes(t: Seq<u8>)
    requires
        plain_bytes(t),
    ensures
        scan_bytes(seq![123u8, 123u8] + t + seq![125u8, 125u8]) == Some(
            seq![PartModel::Literal(seq![123u8] + t + seq![125u8])],
        ),
{
    let open = seq![123u8, 123u8];
    let close = seq![125u8, 125u8];
    let w = open + t + close;
    lemma_scan_from_concat(init_scan(), open + t, close);
    lemma_scan_from_concat(init_scan(), open, t);
    // the two opening braces: into `MaybeOpen` and back, buffering one `{`
    let mid = ScanState { state: State::MaybeOpen, buf: Seq::empty(), parts: Seq::empty() };
    let opened = ScanState { state: State::Literal, buf: seq![123u8], parts: Seq::empty() };
    assert(open.skip(1) =~= seq![123u8]);
    assert(scan_from(init_scan(), open) == scan_from(mid, seq![123u8]));
    lemma_scan_from_one(mid, 123u8);
    assert(scan_step(mid, 123u8) == Some(opened)) by {
        assert(Seq::<u8>::empty().push(123u8) =~= seq![123u8]);
    }
    // the plain run accumulates after the brace
    lemma_scan_literal_run(opened, t);
    let run = ScanState { state: State::Literal, buf: seq![123u8] + t, parts: Seq::empty() };
    assert(scan_from(opened, t) == Some(run));
    // the two closing braces: into `DoubleClose` buffering one `}`, and back
    let closing = ScanState {
        state: State::DoubleClose,
        buf: (seq![123u8] + t).push(125u8),
        parts: Seq::empty(),
    };
    assert(close.skip(1) =~= seq![125u8]);
    assert(scan_from(run, close) == scan_from(closing, seq![125u8]));
    lemma_scan_from_one(closing, 125u8);
    let end = ScanState {
        state: State::Literal,
        buf: (seq![123u8] + t).push(125u8),
        parts: Seq::empty(),
    };
    assert(scan_step(closing, 125u8) == Some(end));
    assert(scan_from(init_scan(), w) == Some(end));
    assert((seq![123u8] + t).push(125u8) =~= seq![123u8] + t + seq![125u8]);
    assert(scan_finish(end) =~= seq![PartModel::Literal(seq![123u8] + t + seq![125u8])]);
}

} // verus!
