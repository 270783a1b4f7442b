//! Multi-line styled text blocks, assembled line by line for display by a
//! rendering collaborator. Only the textual structure lives here; pixel
//! measurement and drawing stay with the renderer.

use vstd::prelude::*;
use vstd::string::StringExecFns;

verus! {

/// An RGBA color with 8-bit channels.
#[derive(Clone, Copy, Debug, PartialEq, Eq, Structural)]
pub struct Color {
    pub r: u8,
    pub g: u8,
    pub b: u8,
    pub a: u8,
}

impl Color {
    pub fn rgba(r: u8, g: u8, b: u8, a: u8) -> (c: Color)
        ensures
            c == (Color { r, g, b, a }),
    {
        Color { r, g, b, a }
    }

    pub fn red() -> (c: Color)
        ensures
            c == (Color { r: 255, g: 0, b: 0, a: 255 }),
    {
        Color { r: 255, g: 0, b: 0, a: 255 }
    }

    pub fn green() -> (c: Color)
        ensures
            c == (Color { r: 0, g: 255, b: 0, a: 255 }),
    {
        Color { r: 0, g: 255, b: 0, a: 255 }
    }

    pub fn yellow() -> (c: Color)
        ensures
            c == (Color { r: 255, g: 255, b: 0, a: 255 }),
    {
        Color { r: 255, g: 255, b: 0, a: 255 }
    }

    pub fn pink() -> (c: Color)
        ensures
            c == (Color { r: 255, g: 192, b: 203, a: 255 }),
    {
        Color { r: 255, g: 192, b: 203, a: 255 }
    }
}

/// The default foreground for text: black.
pub open spec fn spec_text_fg_color() -> Color {
    Color { r: 0, g: 0, b: 0, a: 255 }
}

pub fn text_fg_color() -> (c: Color)
    ensures
        c == spec_text_fg_color(),
{
    Color { r: 0, g: 0, b: 0, a: 255 }
}

/// The highlight used behind query text: half-transparent blue.
pub fn text_query_color() -> (c: Color)
    ensures
        c == (Color { r: 0, g: 0, b: 255, a: 128 }),
{
    Color { r: 0, g: 0, b: 255, a: 128 }
}

/// The highlight used behind focused text: half-transparent red.
pub fn text_focus_color() -> (c: Color)
    ensures
        c == (Color { r: 255, g: 0, b: 0, a: 128 }),
{
    Color { r: 255, g: 0, b: 0, a: 128 }
}

/// The background behind a whole text block: half-transparent green.
pub open spec fn spec_text_bg_color() -> Color {
    Color { r: 0, g: 255, b: 0, a: 128 }
}

fn text_bg_color() -> (c: Color)
    ensures
        c == spec_text_bg_color(),
{
    Color { r: 0, g: 255, b: 0, a: 128 }
}

pub const FONT_SIZE: u32 = 24;

/// The assumed maximum glyph width in pixels, used to pick a wrap width.
pub const MAX_CHAR_WIDTH: u32 = 25;

/// What the text layer reads from the window: its width in pixels.
#[derive(Clone, Copy, Debug, PartialEq, Eq, Structural)]
pub struct Canvas {
    pub window_width: u32,
}

/// A run of characters in one style.
#[derive(Clone, Debug, PartialEq, Eq)]
pub struct TextSpan {
    pub text: String,
    pub fg_color: Color,
    /// The block's background covers everything; a span may add extra
    /// highlighting behind itself alone.
    pub highlight_color: Option<Color>,
}

impl TextSpan {
    /// A span in the default style: black on no extra highlight.
    pub fn default_style(text: String) -> (r: TextSpan)
        ensures
            r.text@ == text@,
            r.fg_color == spec_text_fg_color(),
            r.highlight_color is None,
    {
        TextSpan { text, fg_color: text_fg_color(), highlight_color: None }
    }
}

/// A block of styled lines, each a list of spans.
#[derive(Clone, Debug)]
pub struct Text {
    pub lines: Vec<Vec<TextSpan>>,
    pub bg_color: Color,
}

/// What textwrap yields for a text at a width: the wrapped lines, a
/// function of the text and the width alone.
pub uninterp spec fn wrap_of(text: Seq<char>, width: int) -> Seq<Seq<char>>;

/// Relies on textwrap::wrap: a pure computation whose result depends on
/// the text and the width alone.
#[verifier::external_body]
fn wrap_line(line: &str, width: usize) -> (r: Vec<String>)
    ensures
        r@.map_values(|s: String| s@) == wrap_of(line@, width as int),
{
    textwrap::wrap(line, width).into_iter().map(|c| c.into_owned()).collect()
}

impl Text {
    pub fn new() -> (r: Text)
        ensures
            r.lines@.len() == 0,
            r.bg_color == spec_text_bg_color(),
    {
        Text { lines: Vec::new(), bg_color: text_bg_color() }
    }

    /// A block holding the one given line in the default style.
    pub fn from_line(line: String) -> (r: Text)
        ensures
            r.lines@.len() == 1,
            r.lines@[0]@.len() == 1,
            r.lines@[0]@[0].text@ == line@,
            r.lines@[0]@[0].fg_color == spec_text_fg_color(),
            r.lines@[0]@[0].highlight_color is None,
            r.bg_color == spec_text_bg_color(),
    {
        let mut txt = Text::new();
        txt.add_line(line);
        txt
    }

    /// Separates what follows from what is already there: appends an empty
    /// line, unless the block is still empty.
    pub fn pad_if_nonempty(&mut self)
        ensures
            old(self).lines@.len() == 0 ==> *final(self) == *old(self),
            old(self).lines@.len() > 0 ==> {
                &&& final(self).lines@.len() == old(self).lines@.len() + 1
                &&& final(self).lines@.last()@.len() == 0
                &&& forall|i: int|
                    0 <= i < old(self).lines@.len() ==> final(self).lines@[i] == old(
                        self,
                    ).lines@[i]
                &&& final(self).bg_color == old(self).bg_color
            },
    {
        if self.lines.len() > 0 {
            self.lines.push(Vec::new());
        }
    }

    /// Appends one line in the default style.
    pub fn add_line(&mut self, line: String)
        ensures
            final(self).lines@.len() == old(self).lines@.len() + 1,
            final(self).lines@.last()@.len() == 1,
            final(self).lines@.last()@[0].text@ == line@,
            final(self).lines@.last()@[0].fg_color == spec_text_fg_color(),
            final(self).lines@.last()@[0].highlight_color is None,
            forall|i: int|
                0 <= i < old(self).lines@.len() ==> final(self).lines@[i] == old(self).lines@[i],
            final(self).bg_color == old(self).bg_color,
    {
        let mut spans: Vec<TextSpan> = Vec::new();
        spans.push(TextSpan::default_style(line));
        self.lines.push(spans);
    }

    /// Wraps the line to the window width, assuming the widest glyph, and
    /// appends each wrapped piece as its own default-style line.
    pub fn add_wrapped_line(&mut self, canvas: &Canvas, line: String)
        ensures
            ({
                let wrapped = wrap_of(line@, canvas.window_width as int / MAX_CHAR_WIDTH as int);
                &&& final(self).lines@.len() == old(self).lines@.len() + wrapped.len()
                &&& forall|k: int|
                    0 <= k < wrapped.len() ==> {
                        let l = #[trigger] final(self).lines@[old(self).lines@.len() + k]@;
                        &&& l.len() == 1
                        &&& l[0].text@ == wrapped[k]
                        &&& l[0].fg_color == spec_text_fg_color()
                        &&& l[0].highlight_color is None
                    }
                &&& forall|i: int|
                    0 <= i < old(self).lines@.len() ==> final(self).lines@[i] == old(
                        self,
                    ).lines@[i]
                &&& final(self).bg_color == old(self).bg_color
            }),
    {
        let wrap_to = canvas.window_width / MAX_CHAR_WIDTH;
        let pieces = wrap_line(line.as_str(), wrap_to as usize);
        let ghost wrapped = wrap_of(line@, canvas.window_width as int / MAX_CHAR_WIDTH as int);
        let ghost base = self.lines@.len();
        let n = pieces.len();
        let mut i: usize = 0;
        while i < n
            invariant
                i <= n == pieces@.len(),
                pieces@.map_values(|s: String| s@) == wrapped,
                self.lines@.len() == base + i,
                self.bg_color == old(self).bg_color,
                forall|j: int| 0 <= j < base ==> self.lines@[j] == old(self).lines@[j],
                base == old(self).lines@.len(),
                forall|k: int|
                    0 <= k < i ==> {
                        let l = (#[trigger] self.lines@[base + k])@;
                        &&& l.len() == 1
                        &&& l[0].text@ == wrapped[k]
                        &&& l[0].fg_color == spec_text_fg_color()
                        &&& l[0].highlight_color is None
                    },
            decreases n - i,
        {
            let piece = clone_string(&pieces[i]);
            proof {
                assert(pieces@.map_values(|s: String| s@)[i as int] == pieces@[i as int]@);
            }
            self.add_line(piece);
            i += 1;
        }
        proof {
            assert(wrapped.len() == pieces@.map_values(|s: String| s@).len());
        }
    }

    /// Appends one line made of a single span in the given style.
    pub fn add_styled_line(&mut self, line: String, fg_color: Color, highlight_color: Option<Color>)
        ensures
            final(self).lines@.len() == old(self).lines@.len() + 1,
            final(self).lines@.last()@.len() == 1,
            final(self).lines@.last()@[0].text@ == line@,
            final(self).lines@.last()@[0].fg_color == fg_color,
            final(self).lines@.last()@[0].highlight_color == highlight_color,
            forall|i: int|
                0 <= i < old(self).lines@.len() ==> final(self).lines@[i] == old(self).lines@[i],
            final(self).bg_color == old(self).bg_color,
    {
        let mut spans: Vec<TextSpan> = Vec::new();
        spans.push(TextSpan { text: line, fg_color, highlight_color });
        self.lines.push(spans);
    }

    /// Appends one more span to the last line, which must exist.
    pub fn append(&mut self, text: String, fg_color: Color, highlight_color: Option<Color>)
        requires
            old(self).lines@.len() > 0,
        ensures
            final(self).lines@.len() == old(self).lines@.len(),
            final(self).lines@.last()@ == old(self).lines@.last()@ + seq![
                TextSpan { text, fg_color, highlight_color },
            ],
            forall|i: int|
                0 <= i < old(self).lines@.len() - 1 ==> final(self).lines@[i] == old(
                    self,
                ).lines@[i],
            final(self).bg_color == old(self).bg_color,
    {
        let ghost old_last = self.lines@.last()@;
        let last = self.lines.len() - 1;
        let span = TextSpan { text, fg_color, highlight_color };
        let ghost spanv = span;
        let line = &mut self.lines[last];
        line.push(span);
        proof {
            assert(self.lines@.last()@ =~= old_last + seq![spanv]);
        }
    }

    /// How many lines the block holds.
    pub fn num_lines(&self) -> (r: usize)
        ensures
            r == self.lines@.len(),
    {
        self.lines.len()
    }

    /// Whether the block holds no lines at all.
    pub fn is_empty(&self) -> (r: bool)
        ensures
            r == (self.lines@.len() == 0),
    {
        self.lines.is_empty()
    }
}

/// Copies a string.
fn clone_string(s: &String) -> (r: String)
    ensures
        r@ == s@,
{
    s.clone()
}

/// The separator written before entry `idx` of a list of `len` names:
/// nothing before the first, an "and" with or without the comma before the
/// last, and a plain comma in between.
pub open spec fn list_sep(idx: int, len: int) -> Seq<char> {
    if idx == len - 1 {
        if len == 2 {
            " and "@
        } else {
            ", and "@
        }
    } else {
        ", "@
    }
}

fn list_sep_exec(idx: usize, len: usize) -> (r: &'static str)
    requires
        1 <= idx < len,
    ensures
        r@ == list_sep(idx as int, len as int),
{
    if idx == len - 1 {
        if len == 2 {
            " and "
        } else {
            ", and "
        }
    } else {
        ", "
    }
}

/// Whether `out` is what the styler yields for a default-style span whose
/// text is `name`.
pub open spec fn styled_from<F: Fn(TextSpan) -> TextSpan>(
    styler: F,
    name: Seq<char>,
    out: TextSpan,
) -> bool {
    exists|input: TextSpan|
        {
            &&& input.text@ == name
            &&& input.fg_color == spec_text_fg_color()
            &&& input.highlight_color is None
            &&& #[trigger] styler.ensures((input,), out)
        }
}

/// Appends the names to the last line of `txt` as a comma-separated list
/// with a final "and", passing each name through the caller's styler.
#[verifier::loop_isolation(false)]
pub fn list_names<F: Fn(TextSpan) -> TextSpan>(txt: &mut Text, styler: F, names: Vec<String>)
    requires
        names@.len() > 0 ==> old(txt).lines@.len() > 0,
        forall|s: TextSpan| #[trigger] styler.requires((s,)),
    ensures
        final(txt).lines@.len() == old(txt).lines@.len(),
        final(txt).bg_color == old(txt).bg_color,
        forall|i: int|
            0 <= i < old(txt).lines@.len() - 1 ==> final(txt).lines@[i] == old(txt).lines@[i],
        names@.len() == 0 ==> *final(txt) == *old(txt),
        names@.len() > 0 ==> {
            let appended = final(txt).lines@.last()@.skip(old(txt).lines@.last()@.len() as int);
            &&& final(txt).lines@.last()@.len() == old(txt).lines@.last()@.len() + 2 * names@.len()
                - 1
            &&& final(txt).lines@.last()@.take(old(txt).lines@.last()@.len() as int) == old(
                txt,
            ).lines@.last()@
            &&& forall|k: int|
                #![trigger appended[2 * k]]
                0 <= k < names@.len() ==> styled_from(styler, names@[k]@, appended[2 * k])
            &&& forall|k: int|
                1 <= k < names@.len() ==> {
                    let sep = #[trigger] appended[2 * k - 1];
                    &&& sep.text@ == list_sep(k, names@.len() as int)
                    &&& sep.fg_color == spec_text_fg_color()
                    &&& sep.highlight_color is None
                }
        },
{
    let len = names.len();
    if len == 0 {
        return;
    }
    let ghost base = txt.lines@.last()@.len() as int;
    let ghost nlines = txt.lines@.len();
    let ghost mut witnesses: Seq<TextSpan> = Seq::empty();
    let mut idx: usize = 0;
    while idx < len
        invariant
            0 < len == names@.len(),
            idx <= len,
            txt.lines@.len() == nlines == old(txt).lines@.len() > 0,
            txt.bg_color == old(txt).bg_color,
            forall|i: int| 0 <= i < nlines - 1 ==> txt.lines@[i] == old(txt).lines@[i],
            txt.lines@.last()@.len() == base + (if idx == 0 {
                0int
            } else {
                2 * idx - 1
            }),
            txt.lines@.last()@.take(base) == old(txt).lines@.last()@,
            base == old(txt).lines@.last()@.len(),
            witnesses.len() == idx,
            forall|k: int|
                #![trigger witnesses[k]]
                0 <= k < idx ==> {
                    &&& witnesses[k].text@ == names@[k]@
                    &&& witnesses[k].fg_color == spec_text_fg_color()
                    &&& witnesses[k].highlight_color is None
                    &&& styler.ensures((witnesses[k],), txt.lines@.last()@.skip(base)[2 * k])
                },
            forall|k: int|
                1 <= k < idx ==> {
                    let sep = #[trigger] txt.lines@.last()@.skip(base)[2 * k - 1];
                    &&& sep.text@ == list_sep(k, len as int)
                    &&& sep.fg_color == spec_text_fg_color()
                    &&& sep.highlight_color is None
                },
        decreases len - idx,
    {
        let ghost prev = txt.lines@.last()@;
        if idx != 0 {
            let sep = list_sep_exec(idx, len);
            txt.append(String::from_str(sep), text_fg_color(), None);
        }
        let ghost mid = txt.lines@.last()@;
        let input = TextSpan::default_style(clone_string(&names[idx]));
        let ghost inputv = input;
        let styled = styler(input);
        let ghost styledv = styled;
        txt.append(styled.text, styled.fg_color, styled.highlight_color);
        proof {
            let last = txt.lines@.last()@;
            assert(last == mid + seq![
                TextSpan {
                    text: styledv.text,
                    fg_color: styledv.fg_color,
                    highlight_color: styledv.highlight_color,
                },
            ]);
            assert(TextSpan {
                text: styledv.text,
                fg_color: styledv.fg_color,
                highlight_color: styledv.highlight_color,
            } == styledv);
            assert(last.len() == base + 2 * (idx + 1) - 1);
            assert(last.take(base) =~= prev.take(base));
            assert forall|j: int| 0 <= j < prev.len() - base implies last.skip(base)[j]
                == prev.skip(base)[j] by {
                assert(prev.skip(base)[j] == prev[base + j]);
                if idx != 0 {
                    assert(mid[base + j] == prev[base + j]);
                }
                assert(last[base + j] == mid[base + j]);
                assert(last.skip(base)[j] == last[base + j]);
            }
            assert(last.skip(base)[2 * idx] == last[base + 2 * idx]);
            assert(last.skip(base)[2 * idx] == styledv);
            assert(styler.ensures((inputv,), styledv));
            witnesses = witnesses.push(inputv);
            assert forall|k: int| #![trigger witnesses[k]] 0 <= k < idx + 1 implies {
                &&& witnesses[k].text@ == names@[k]@
                &&& witnesses[k].fg_color == spec_text_fg_color()
                &&& witnesses[k].highlight_color is None
                &&& styler.ensures((witnesses[k],), txt.lines@.last()@.skip(base)[2 * k])
            } by {
                assert(txt.lines@.last()@.skip(base)[2 * k] == last.skip(base)[2 * k]);
                if k < idx {
                    assert(witnesses[k] == witnesses.drop_last()[k]);
                    assert(last.skip(base)[2 * k] == prev.skip(base)[2 * k]);
                } else {
                    assert(witnesses[k] == inputv);
                    assert(styler.ensures((inputv,), last.skip(base)[2 * idx]));
                }
            }
            if idx != 0 {
                assert(last.skip(base)[2 * idx - 1] == last[base + 2 * idx - 1]);
                assert(last[base + 2 * idx - 1] == mid[base + 2 * idx - 1]);
                assert(mid.last() == mid[base + 2 * idx - 1]);
                assert(last.skip(base)[2 * idx - 1].text@ == list_sep(idx as int, len as int));
            }
        }
        idx += 1;
    }
    proof {
        let oldlen = old(txt).lines@.last()@.len() as int;
        let appended = txt.lines@.last()@.skip(oldlen);
        assert(oldlen == base);
        assert(appended == txt.lines@.last()@.skip(base));
        assert(txt.lines@.last()@.len() == oldlen + 2 * names@.len() - 1);
        assert(txt.lines@.last()@.take(oldlen) == old(txt).lines@.last()@);
        assert forall|k: int|
            #![trigger appended[2 * k]]
            0 <= k < names@.len() implies styled_from(styler, names@[k]@, appended[2 * k]) by {
            let w = witnesses[k];
            assert(appended[2 * k] == txt.lines@.last()@.skip(base)[2 * k]);
            assert({
                &&& w.text@ == names@[k]@
                &&& w.fg_color == spec_text_fg_color()
                &&& w.highlight_color is None
                &&& styler.ensures((w,), appended[2 * k])
            });
        }
        assert forall|k: int| 1 <= k < names@.len() implies {
            let sep = #[trigger] appended[2 * k - 1];
            &&& sep.text@ == list_sep(k, names@.len() as int)
            &&& sep.fg_color == spec_text_fg_color()
            &&& sep.highlight_color is None
        } by {
            assert(appended[2 * k - 1] == txt.lines@.last()@.skip(base)[2 * k - 1]);
        }
    }
}

} // verus!
