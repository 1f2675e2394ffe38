//! The ANSI escape-code parser: terminal text split into styled
//! segments.
//!
//! Both the real `ESC [` introducer and a bare `[` open an escape
//! sequence; the digit-and-semicolon code runs to an `m`.  Select
//! Graphic Rendition codes push or clear styles; unknown codes are
//! ignored.
use vstd::prelude::*;

use crate::decode::{all_digits, dec_val, is_digit};
use crate::strutil::{split_char, split_seq};

verus! {

broadcast use vstd::string::group_string_axioms;

/// One text style an escape code can switch on.
#[derive(Debug, Clone, Copy, PartialEq, Eq, Structural)]
pub enum AnsiStyle {
    Bold,
    Dim,
    FgRed,
    FgGreen,
    FgYellow,
    FgBlue,
    FgMagenta,
    FgCyan,
}

impl View for AnsiStyle {
    type V = AnsiStyle;

    open spec fn view(&self) -> AnsiStyle {
        *self
    }
}

impl DeepView for AnsiStyle {
    type V = AnsiStyle;

    open spec fn deep_view(&self) -> AnsiStyle {
        *self
    }
}

/// The CSS class each style renders as.
pub open spec fn css_class_spec(s: AnsiStyle) -> Seq<char> {
    match s {
        AnsiStyle::Bold => "ansi-bold"@,
        AnsiStyle::Dim => "ansi-dim"@,
        AnsiStyle::FgRed => "ansi-red"@,
        AnsiStyle::FgGreen => "ansi-green"@,
        AnsiStyle::FgYellow => "ansi-yellow"@,
        AnsiStyle::FgBlue => "ansi-blue"@,
        AnsiStyle::FgMagenta => "ansi-magenta"@,
        AnsiStyle::FgCyan => "ansi-cyan"@,
    }
}

impl AnsiStyle {
    fn to_css_class(&self) -> (r: &'static str)
        ensures
            r@ == css_class_spec(*self),
    {
        match self {
            AnsiStyle::Bold => "ansi-bold",
            AnsiStyle::Dim => "ansi-dim",
            AnsiStyle::FgRed => "ansi-red",
            AnsiStyle::FgGreen => "ansi-green",
            AnsiStyle::FgYellow => "ansi-yellow",
            AnsiStyle::FgBlue => "ansi-blue",
            AnsiStyle::FgMagenta => "ansi-magenta",
            AnsiStyle::FgCyan => "ansi-cyan",
        }
    }
}

/// One run of text under one set of styles.
#[derive(Debug, Clone, PartialEq)]
pub struct AnsiSegment {
    pub text: String,
    pub styles: Vec<AnsiStyle>,
}

/// The mathematical shape of a segment.
pub ghost struct SegRep {
    pub text: Seq<char>,
    pub styles: Seq<AnsiStyle>,
}

impl View for AnsiSegment {
    type V = SegRep;

    open spec fn view(&self) -> SegRep {
        SegRep { text: self.text@, styles: self.styles@ }
    }
}

impl DeepView for AnsiSegment {
    type V = SegRep;

    open spec fn deep_view(&self) -> SegRep {
        self.view()
    }
}

/// The classes of the styles, joined by single spaces.
pub open spec fn css_classes_spec(styles: Seq<AnsiStyle>) -> Seq<char>
    decreases styles.len(),
{
    if styles.len() == 0 {
        Seq::empty()
    } else if styles.len() == 1 {
        css_class_spec(styles[0])
    } else {
        css_classes_spec(styles.drop_last()) + seq![' '] + css_class_spec(styles.last())
    }
}

impl AnsiSegment {
    pub fn new(text: String, styles: Vec<AnsiStyle>) -> (r: Self)
        ensures
            r@ == (SegRep { text: text@, styles: styles@ }),
    {
        Self { text, styles }
    }

    /// The space-joined CSS classes of this segment's styles.
    pub fn css_classes(&self) -> (r: String)
        ensures
            r@ == css_classes_spec(self.styles@),
    {
        let mut out = String::new();
        let ghost gs = self.styles@;
        proof {
            assert(out@ =~= css_classes_spec(gs.take(0)));
        }
        let mut i: usize = 0;
        while i < self.styles.len()
            invariant
                i <= gs.len(),
                gs == self.styles@,
                out@ == css_classes_spec(gs.take(i as int)),
            decreases gs.len() - i,
        {
            proof {
                assert(gs.take(i + 1).drop_last() =~= gs.take(i as int));
                assert(gs.take(i + 1).last() == gs[i as int]);
            }
            if i > 0 {
                out.append(" ");
                proof {
                    reveal_strlit(" ");
                    assert(" "@ =~= seq![' ']);
                }
            }
            out.append(self.styles[i].to_css_class());
            i += 1;
        }
        proof {
            assert(gs.take(gs.len() as int) =~= gs);
        }
        out
    }
}

/// Whether a style is an intensity (bold or dim).
pub open spec fn is_intensity(s: AnsiStyle) -> bool {
    s == AnsiStyle::Bold || s == AnsiStyle::Dim
}

/// Whether a style is a foreground colour.
pub open spec fn is_color(s: AnsiStyle) -> bool {
    s == AnsiStyle::FgRed || s == AnsiStyle::FgGreen || s == AnsiStyle::FgYellow || s
        == AnsiStyle::FgBlue || s == AnsiStyle::FgMagenta || s == AnsiStyle::FgCyan
}

pub open spec fn remove_intensity(styles: Seq<AnsiStyle>) -> Seq<AnsiStyle>
    decreases styles.len(),
{
    if styles.len() == 0 {
        Seq::empty()
    } else {
        remove_intensity(styles.drop_last()) + (if is_intensity(styles.last()) {
            Seq::empty()
        } else {
            seq![styles.last()]
        })
    }
}

pub open spec fn remove_colors(styles: Seq<AnsiStyle>) -> Seq<AnsiStyle>
    decreases styles.len(),
{
    if styles.len() == 0 {
        Seq::empty()
    } else {
        remove_colors(styles.drop_last()) + (if is_color(styles.last()) {
            Seq::empty()
        } else {
            seq![styles.last()]
        })
    }
}

/// The value of one code part, read as a decimal number; empty parts
/// and values beyond 32 bits fail, and are ignored by the caller.
pub open spec fn code_value(part: Seq<char>) -> Option<u32> {
    if part.len() >= 1 && all_digits(part) && dec_val(part) <= u32::MAX {
        Some(dec_val(part) as u32)
    } else {
        None
    }
}

/// One Select Graphic Rendition code applied to a style stack.
pub open spec fn apply_code(n: u32, styles: Seq<AnsiStyle>) -> Seq<AnsiStyle> {
    if n == 0 {
        Seq::empty()
    } else if n == 1 {
        styles.push(AnsiStyle::Bold)
    } else if n == 2 {
        styles.push(AnsiStyle::Dim)
    } else if n == 22 {
        remove_intensity(styles)
    } else if n == 31 {
        styles.push(AnsiStyle::FgRed)
    } else if n == 32 {
        styles.push(AnsiStyle::FgGreen)
    } else if n == 33 {
        styles.push(AnsiStyle::FgYellow)
    } else if n == 34 {
        styles.push(AnsiStyle::FgBlue)
    } else if n == 35 {
        styles.push(AnsiStyle::FgMagenta)
    } else if n == 36 {
        styles.push(AnsiStyle::FgCyan)
    } else if n == 39 {
        remove_colors(styles)
    } else {
        styles
    }
}

/// Every code part applied in order; parts that are not numbers are
/// ignored.
pub open spec fn apply_codes(parts: Seq<Seq<char>>, styles: Seq<AnsiStyle>) -> Seq<AnsiStyle>
    decreases parts.len(),
{
    if parts.len() == 0 {
        styles
    } else {
        apply_codes(
            parts.drop_first(),
            match code_value(parts[0]) {
                Some(n) => apply_code(n, styles),
                None => styles,
            },
        )
    }
}

/// Scans an escape sequence's code region: digits and semicolons
/// accumulate, `m` closes the sequence, anything else stops the scan
/// without being consumed.  Yields the code text and how many
/// characters were consumed.
pub open spec fn scan_code(t: Seq<char>) -> (Seq<char>, int)
    decreases t.len(),
{
    if t.len() == 0 {
        (Seq::empty(), 0)
    } else if is_digit(t[0]) {
        let r = scan_code(t.drop_first());
        (seq![t[0]] + r.0, r.1 + 1)
    } else if t[0] == 'm' {
        (Seq::empty(), 1)
    } else if t[0] == ';' {
        let r = scan_code(t.drop_first());
        (seq![';'] + r.0, r.1 + 1)
    } else {
        (Seq::empty(), 0)
    }
}

/// The parser's running state.
pub ghost struct AnsiState {
    pub segments: Seq<SegRep>,
    pub text: Seq<char>,
    pub styles: Seq<AnsiStyle>,
}

pub open spec fn ansi_init() -> AnsiState {
    AnsiState { segments: Seq::empty(), text: Seq::empty(), styles: Seq::empty() }
}

/// Closes the running text into a segment, if there is any.
pub open spec fn flush_text(st: AnsiState) -> AnsiState {
    if st.text.len() > 0 {
        AnsiState {
            segments: st.segments.push(SegRep { text: st.text, styles: st.styles }),
            text: Seq::empty(),
            styles: st.styles,
        }
    } else {
        st
    }
}

/// Consumes the whole input from the current state: ordinary characters
/// extend the running text; an `ESC` or `[` opens an escape sequence,
/// whose code — if non-empty — is applied to the style stack after the
/// running text is closed off.
pub open spec fn ansi_rec(s: Seq<char>, st: AnsiState) -> AnsiState
    decreases s.len(),
    via ansi_rec_dec
{
    if s.len() == 0 {
        st
    } else if s[0] == 27u8 as char || s[0] == '[' {
        let intro: int = if s[0] == 27u8 as char && s.len() > 1 && s[1] == '[' {
            2
        } else {
            1
        };
        let r = scan_code(s.skip(intro));
        let code = r.0;
        let used = r.1;
        let st1 = flush_text(st);
        let st2 = (if code.len() > 0 {
            AnsiState {
                styles: apply_codes(split_char(code, ';'), st1.styles),
                ..st1
            }
        } else {
            st1
        });
        ansi_rec(s.skip(intro + used), st2)
    } else {
        ansi_rec(
            s.drop_first(),
            AnsiState { text: st.text.push(s[0]), ..st },
        )
    }
}

/// The scan consumes at least nothing and at most the whole region.
proof fn lemma_scan_code_bounds(t: Seq<char>)
    ensures
        0 <= scan_code(t).1 <= t.len(),
    decreases t.len(),
{
    if t.len() > 0 && (is_digit(t[0]) || t[0] == ';') {
        lemma_scan_code_bounds(t.drop_first());
    }
}

#[via_fn]
proof fn ansi_rec_dec(s: Seq<char>, st: AnsiState) {
    if s.len() > 0 && (s[0] == 27u8 as char || s[0] == '[') {
        let intro: int = if s[0] == 27u8 as char && s.len() > 1 && s[1] == '[' {
            2
        } else {
            1
        };
        lemma_scan_code_bounds(s.skip(intro));
    }
}

/// The segments of a text: the run states it, then the last open run is
/// closed off.
pub open spec fn parse_ansi_spec(s: Seq<char>) -> Seq<SegRep> {
    flush_text(ansi_rec(s, ansi_init())).segments
}


/// A longer digit string is worth at least its prefix.
proof fn lemma_dec_val_prefix(s: Seq<char>, k: int)
    requires
        0 <= k <= s.len(),
        all_digits(s),
    ensures
        dec_val(s.take(k)) <= dec_val(s),
        0 <= dec_val(s.take(k)),
    decreases s.len() - k,
{
    if k == s.len() {
        assert(s.take(k) =~= s);
        crate::decode::lemma_dec_val_nonneg(s);
    } else {
        lemma_dec_val_prefix(s, k + 1);
        assert(s.take(k + 1).drop_last() =~= s.take(k));
        assert(is_digit(s.take(k + 1).last()));
        crate::decode::lemma_dec_val_nonneg(s.take(k));
    }
}

/// Reads one code part as a number, exactly as `code_value` describes.
fn code_value_exec(part: &[char]) -> (r: Option<u32>)
    ensures
        r == code_value(part@),
{
    let n = part.len();
    if n == 0 {
        return None;
    }
    let mut acc: u64 = 0;
    let mut j: usize = 0;
    while j < n
        invariant
            j <= n,
            n == part@.len(),
            forall|k: int| 0 <= k < j ==> is_digit(#[trigger] part@[k]),
            acc == dec_val(part@.take(j as int)),
            acc <= u32::MAX,
        decreases n - j,
    {
        let c = part[j];
        if !('0' <= c && c <= '9') {
            return None;
        }
        proof {
            assert(part@.take(j + 1).drop_last() =~= part@.take(j as int));
            assert(part@.take(j + 1).last() == part@[j as int]);
        }
        let d = (c as u32) - ('0' as u32);
        acc = acc * 10 + (d as u64);
        if acc > 0xffff_ffffu64 {
            proof {
                assert(all_digits(part@.take(j + 1)));
                assert(forall|k: int|
                    0 <= k < part@.len() ==> is_digit(#[trigger] part@[k])
                        ==> true);
            }
            if all_digits_tail(part, j + 1) {
                proof {
                    assert(all_digits(part@));
                    lemma_dec_val_prefix(part@, j + 1);
                }
                return None;
            } else {
                return None;
            }
        }
        j += 1;
    }
    proof {
        assert(part@.take(n as int) =~= part@);
    }
    Some(acc as u32)
}

/// Whether every character from `from` on is a digit.
fn all_digits_tail(part: &[char], from: usize) -> (r: bool)
    requires
        from <= part@.len(),
    ensures
        r == (forall|k: int| from <= k < part@.len() ==> is_digit(#[trigger] part@[k])),
{
    let mut i: usize = from;
    while i < part.len()
        invariant
            from <= i <= part@.len(),
            forall|k: int| from <= k < i ==> is_digit(#[trigger] part@[k]),
        decreases part@.len() - i,
    {
        let c = part[i];
        if !('0' <= c && c <= '9') {
            return false;
        }
        i += 1;
    }
    true
}

fn retain_non_intensity(styles: &mut Vec<AnsiStyle>)
    ensures
        final(styles)@ == remove_intensity(old(styles)@),
{
    let ghost gin = styles@;
    let mut out: Vec<AnsiStyle> = Vec::new();
    proof {
        assert(gin.take(0) =~= Seq::<AnsiStyle>::empty());
        assert(out@ =~= remove_intensity(gin.take(0)));
    }
    let mut i: usize = 0;
    while i < styles.len()
        invariant
            i <= gin.len(),
            gin == styles@,
            out@ == remove_intensity(gin.take(i as int)),
        decreases gin.len() - i,
    {
        proof {
            assert(gin.take(i + 1).drop_last() =~= gin.take(i as int));
            assert(gin.take(i + 1).last() == gin[i as int]);
        }
        let st = styles[i];
        let keep = !(match st {
            AnsiStyle::Bold => true,
            AnsiStyle::Dim => true,
            _ => false,
        });
        if keep {
            out.push(st);
            proof {
                assert(out@ =~= remove_intensity(gin.take(i as int)) + seq![
                    gin[i as int]
                ]);
            }
        } else {
            proof {
                assert(out@ =~= remove_intensity(gin.take(i as int))
                    + Seq::<AnsiStyle>::empty());
            }
        }
        i += 1;
    }
    proof {
        assert(gin.take(gin.len() as int) =~= gin);
    }
    *styles = out;
}

fn retain_non_color(styles: &mut Vec<AnsiStyle>)
    ensures
        final(styles)@ == remove_colors(old(styles)@),
{
    let ghost gin = styles@;
    let mut out: Vec<AnsiStyle> = Vec::new();
    proof {
        assert(gin.take(0) =~= Seq::<AnsiStyle>::empty());
        assert(out@ =~= remove_colors(gin.take(0)));
    }
    let mut i: usize = 0;
    while i < styles.len()
        invariant
            i <= gin.len(),
            gin == styles@,
            out@ == remove_colors(gin.take(i as int)),
        decreases gin.len() - i,
    {
        proof {
            assert(gin.take(i + 1).drop_last() =~= gin.take(i as int));
            assert(gin.take(i + 1).last() == gin[i as int]);
        }
        let st = styles[i];
        let keep = !(match st {
            AnsiStyle::FgRed => true,
            AnsiStyle::FgGreen => true,
            AnsiStyle::FgYellow => true,
            AnsiStyle::FgBlue => true,
            AnsiStyle::FgMagenta => true,
            AnsiStyle::FgCyan => true,
            _ => false,
        });
        if keep {
            out.push(st);
            proof {
                assert(out@ =~= remove_colors(gin.take(i as int)) + seq![
                    gin[i as int]
                ]);
            }
        } else {
            proof {
                assert(out@ =~= remove_colors(gin.take(i as int))
                    + Seq::<AnsiStyle>::empty());
            }
        }
        i += 1;
    }
    proof {
        assert(gin.take(gin.len() as int) =~= gin);
    }
    *styles = out;
}

fn apply_one_code(n: u32, styles: &mut Vec<AnsiStyle>)
    ensures
        final(styles)@ == apply_code(n, old(styles)@),
{
    if n == 0 {
        styles.clear();
        proof {
            assert(final(styles)@ =~= Seq::<AnsiStyle>::empty());
        }
    } else if n == 1 {
        styles.push(AnsiStyle::Bold);
    } else if n == 2 {
        styles.push(AnsiStyle::Dim);
    } else if n == 22 {
        retain_non_intensity(styles);
    } else if n == 31 {
        styles.push(AnsiStyle::FgRed);
    } else if n == 32 {
        styles.push(AnsiStyle::FgGreen);
    } else if n == 33 {
        styles.push(AnsiStyle::FgYellow);
    } else if n == 34 {
        styles.push(AnsiStyle::FgBlue);
    } else if n == 35 {
        styles.push(AnsiStyle::FgMagenta);
    } else if n == 36 {
        styles.push(AnsiStyle::FgCyan);
    } else if n == 39 {
        retain_non_color(styles);
    }
}

/// Splits terminal text into styled segments, exactly as
/// `parse_ansi_spec` describes.
pub fn parse_ansi(input: &str) -> (r: Vec<AnsiSegment>)
    ensures
        r.deep_view() == parse_ansi_spec(input@),
{
    let s = crate::strutil::chars_of(input);
    let n = s.len();
    let mut segments: Vec<AnsiSegment> = Vec::new();
    let mut current_text: Vec<char> = Vec::new();
    let mut current_styles: Vec<AnsiStyle> = Vec::new();
    proof {
        assert(segments.deep_view() =~~= ansi_init().segments);
        assert(current_text@ =~= ansi_init().text);
        assert(current_styles@ =~= ansi_init().styles);
        assert(s@.skip(0) =~= s@);
    }
    let mut i: usize = 0;
    while i < n
        invariant
            i <= n,
            n == s@.len(),
            s@ == input@,
            ansi_rec(input@, ansi_init()) == ansi_rec(
                s@.skip(i as int),
                AnsiState {
                    segments: segments.deep_view(),
                    text: current_text@,
                    styles: current_styles@,
                },
            ),
        decreases n - i,
    {
        let ghost st0 = AnsiState {
            segments: segments.deep_view(),
            text: current_text@,
            styles: current_styles@,
        };
        let ghost rest = s@.skip(i as int);
        proof {
            assert(rest[0] == s@[i as int]);
        }
        let ch = s[i];
        if ch == 27u8 as char || ch == '[' {
            let intro: usize = (if ch == 27u8 as char && i + 1 < n && s[i + 1] == '['
                 {
                proof {
                    assert(rest.len() > 1 && rest[1] == s@[i + 1]);
                }
                2
            } else {
                proof {
                    if rest.len() > 1 {
                        assert(rest[1] == s@[i + 1]);
                    }
                }
                1
            });
            let ghost code_region = rest.skip(intro as int);
            proof {
                assert(code_region =~= s@.skip(i + intro));
                lemma_scan_code_bounds(code_region);
            }
            // scan the code region
            let mut code: Vec<char> = Vec::new();
            let mut j = i + intro;
            let ghost scanned = scan_code(code_region);
            proof {
                assert(s@.skip(j as int) =~= code_region);
                assert(scan_code(code_region) == (
                    code@ + scan_code(s@.skip(j as int)).0,
                    j - (i + intro) + scan_code(s@.skip(j as int)).1,
                ));
            }
            let mut done = false;
            while !done && j < n
                invariant
                    i + intro <= j <= n,
                    n == s@.len(),
                    s@ == input@,
                    code_region == s@.skip(i + intro),
                    scanned == scan_code(code_region),
                    !done ==> scanned == (
                        code@ + scan_code(s@.skip(j as int)).0,
                        j - (i + intro) + scan_code(s@.skip(j as int)).1,
                    ),
                    done ==> scanned == (code@, j - (i + intro)),
                decreases n - j, (if done {
                    0int
                } else {
                    1int
                }),
            {
                let c = s[j];
                let ghost tail = s@.skip(j as int);
                proof {
                    assert(tail[0] == s@[j as int]);
                    assert(tail.drop_first() =~= s@.skip(j + 1));
                    lemma_scan_code_bounds(tail.drop_first());
                }
                if '0' <= c && c <= '9' {
                    code.push(c);
                    j += 1;
                } else if c == 'm' {
                    j += 1;
                    done = true;
                    proof {
                        assert(scan_code(tail) == (Seq::<char>::empty(), 1int));
                    }
                } else if c == ';' {
                    code.push(';');
                    j += 1;
                } else {
                    done = true;
                    proof {
                        assert(scan_code(tail) == (Seq::<char>::empty(), 0int));
                    }
                }
            }
            proof {
                if !done {
                    assert(s@.skip(j as int) =~= Seq::<char>::empty());
                }
                assert(scanned == (code@, j - (i + intro)));
            }
            // close off the running text
            if current_text.len() > 0 {
                let seg = AnsiSegment {
                    text: crate::strutil::string_of(current_text.as_slice()),
                    styles: clone_styles(&current_styles),
                };
                let ghost before = segments.deep_view();
                segments.push(seg);
                proof {
                    assert(segments.deep_view() =~~= before.push(
                        SegRep { text: st0.text, styles: st0.styles },
                    ));
                }
                current_text = Vec::new();
            }
            let ghost st1 = flush_text(st0);
            proof {
                assert(st1.segments =~~= segments.deep_view());
                assert(current_text@ =~= st1.text);
                assert(current_styles@ == st1.styles);
            }
            // apply the codes
            if code.len() > 0 {
                let parts = split_seq(code.as_slice(), ';');
                let ghost gparts = parts.deep_view();
                proof {
                    assert(gparts.skip(0) =~= gparts);
                }
                let mut k: usize = 0;
                while k < parts.len()
                    invariant
                        k <= parts@.len(),
                        gparts == parts.deep_view(),
                        gparts.len() == parts@.len(),
                        apply_codes(gparts, st1.styles) == apply_codes(
                            gparts.skip(k as int),
                            current_styles@,
                        ),
                    decreases parts@.len() - k,
                {
                    proof {
                        assert(gparts.skip(k as int)[0] == gparts[k as int]);
                        assert(gparts[k as int] =~= parts@[k as int]@);
                        assert(gparts.skip(k as int).drop_first() =~= gparts.skip(
                            k + 1,
                        ));
                    }
                    match code_value_exec(parts[k].as_slice()) {
                        Some(v) => {
                            apply_one_code(v, &mut current_styles);
                        },
                        None => {},
                    }
                    k += 1;
                }
                proof {
                    assert(gparts.skip(k as int) =~= Seq::<Seq<char>>::empty());
                    assert(current_styles@ == apply_codes(
                        split_char(code@, ';'),
                        st1.styles,
                    ));
                }
            }
            proof {
                assert(s@.skip(i as int).skip(intro + (j - (i + intro)))
                    =~= s@.skip(j as int));
            }
            i = j;
        } else {
            current_text.push(ch);
            proof {
                assert(rest.drop_first() =~= s@.skip(i + 1));
            }
            i += 1;
        }
    }
    proof {
        assert(s@.skip(i as int) =~= Seq::<char>::empty());
    }
    if current_text.len() > 0 {
        let seg = AnsiSegment {
            text: crate::strutil::string_of(current_text.as_slice()),
            styles: current_styles,
        };
        let ghost before = segments.deep_view();
        let ghost segrep = seg@;
        segments.push(seg);
        proof {
            assert(segments.deep_view() =~~= before.push(segrep));
        }
    }
    segments
}

fn clone_styles(styles: &Vec<AnsiStyle>) -> (r: Vec<AnsiStyle>)
    ensures
        r@ == styles@,
{
    let mut r: Vec<AnsiStyle> = Vec::new();
    let mut i: usize = 0;
    while i < styles.len()
        invariant
            i <= styles@.len(),
            r@ =~= styles@.take(i as int),
        decreases styles@.len() - i,
    {
        r.push(styles[i]);
        i += 1;
    }
    proof {
        assert(r@ =~= styles@);
    }
    r
}

} // verus!

