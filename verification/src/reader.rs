//! The parser state machine: it drives a sequence of lines through the
//! nested-section grammar of a BDF document and accumulates the result
//! into a [`Font`]. `spec_read` states what the whole parse yields;
//! [`Font::read`] implements it.

use vstd::prelude::*;

use crate::bitvec::{bits_of, bitvec_from_bytes, bytes_to_bits};
use crate::font::{
    glyph_encodings, glyphs_find, glyphs_insert, glyphs_put, glyphs_sorted,
    lemma_glyphs_insert_encodings, lemma_glyphs_insert_props, props_map, BoundingBox, Font, FontV,
    Glyph, GlyphV, Size, Value, ValueV,
};
use crate::strutil::{
    dec_i32_of, decode_quoted, decode_quoted_range, first_ws, hex_bytes, hex_digits_of, hex_val,
    is_hex_char, is_ws_char, lemma_first_ws_at, parse_i32_text, push_char,
};
use crate::tokens::{self, Token, TokenV, WritingDirection};
use crate::{Error, ErrorV};

verus! {

/// Where in the nested-section grammar the parse stands.
#[derive(Clone, Copy, Debug, PartialEq, Eq, Structural)]
pub enum State {
    /// Before `STARTFONT`.
    Initial,
    /// Between start and end font.
    Font,
    /// Inside the font's properties, with `len` property lines remaining.
    Properties { len: usize },
    /// Inside the font's chars, with `len` glyphs remaining.
    Chars { len: usize },
    /// Inside one of the font's chars, with `chars` glyphs remaining
    /// including the current one.
    Glyph { chars: usize },
    /// Inside the glyph bitmap, with `len` rows remaining and `chars`
    /// glyphs remaining including the current one.
    Bitmap { chars: usize, len: usize },
    /// After `ENDFONT`.
    Final,
}

impl State {
    /// The parse must stand before `STARTFONT`.
    pub fn assert_initial(self, token: &Token) -> (r: Result<(), Error>)
        ensures
            match r {
                Ok(_) => self is Initial,
                Err(e) => !(self is Initial) && e@ == ErrorV::InvalidContext(
                    token@,
                    self,
                    "Initial"@,
                ),
            },
    {
        match self {
            State::Initial => Ok(()),
            _ => Err(Error::InvalidContext(token.clone(), self, "Initial")),
        }
    }

    /// The parse must stand at the font level.
    pub fn assert_font(self, token: &Token) -> (r: Result<(), Error>)
        ensures
            match r {
                Ok(_) => self is Font,
                Err(e) => !(self is Font) && e@ == ErrorV::InvalidContext(token@, self, "Font"@),
            },
    {
        match self {
            State::Font => Ok(()),
            _ => Err(Error::InvalidContext(token.clone(), self, "Font")),
        }
    }

    /// The parse must stand in the properties section; yields the count
    /// of property lines still owed.
    pub fn assert_properties(self, token: &Token) -> (r: Result<usize, Error>)
        ensures
            match r {
                Ok(len) => self == (State::Properties { len }),
                Err(e) => !(self is Properties) && e@ == ErrorV::InvalidContext(
                    token@,
                    self,
                    "Properties"@,
                ),
            },
    {
        match self {
            State::Properties { len } => Ok(len),
            _ => Err(Error::InvalidContext(token.clone(), self, "Properties")),
        }
    }

    /// The parse must stand in the chars section; yields the count of
    /// glyphs still owed.
    pub fn assert_chars(self, token: &Token) -> (r: Result<usize, Error>)
        ensures
            match r {
                Ok(len) => self == (State::Chars { len }),
                Err(e) => !(self is Chars) && e@ == ErrorV::InvalidContext(token@, self, "Chars"@),
            },
    {
        match self {
            State::Chars { len } => Ok(len),
            _ => Err(Error::InvalidContext(token.clone(), self, "Chars")),
        }
    }

    /// The parse must stand inside a glyph; yields the count of glyphs
    /// remaining including the current one.
    pub fn assert_glyph(self, token: &Token) -> (r: Result<usize, Error>)
        ensures
            match r {
                Ok(chars) => self == (State::Glyph { chars }),
                Err(e) => !(self is Glyph) && e@ == ErrorV::InvalidContext(token@, self, "Glyph"@),
            },
    {
        match self {
            State::Glyph { chars } => Ok(chars),
            _ => Err(Error::InvalidContext(token.clone(), self, "Glyph")),
        }
    }

    /// The parse must stand inside a glyph's bitmap; yields the glyph
    /// and row counts remaining.
    pub fn assert_bitmap(self, token: &Token) -> (r: Result<(usize, usize), Error>)
        ensures
            match r {
                Ok((chars, len)) => self == (State::Bitmap { chars, len }),
                Err(e) => !(self is Bitmap) && e@ == ErrorV::InvalidContext(
                    token@,
                    self,
                    "Bitmap"@,
                ),
            },
    {
        match self {
            State::Bitmap { chars, len } => Ok((chars, len)),
            _ => Err(Error::InvalidContext(token.clone(), self, "Bitmap")),
        }
    }
}

/// Everything the parse has gathered so far: the font-level fields, the
/// finished glyphs, and the accumulators of the glyph under construction.
/// `declared`, `replaced` and `seen` only keep count of what the one
/// `CHARS` keyword promised, how many glyphs a later duplicate displaced,
/// and which encodings the closed glyph sections declared.
#[verifier::ext_equal]
pub struct AccV {
    pub version: Option<i32>,
    pub name: Option<Seq<char>>,
    pub size: Option<Size>,
    pub bbox: Option<BoundingBox>,
    pub swidth: Option<(Seq<char>, Seq<char>)>,
    pub dwidth: Option<(Seq<char>, Seq<char>)>,
    pub properties: Map<Seq<char>, ValueV>,
    pub glyphs: Seq<GlyphV>,
    pub glyph_name: Option<Seq<char>>,
    pub glyph_encoding: Option<u32>,
    pub glyph_swidth: Option<(Seq<char>, Seq<char>)>,
    pub glyph_dwidth: Option<(Seq<char>, Seq<char>)>,
    pub glyph_bbox: Option<BoundingBox>,
    pub glyph_bitmap: Seq<Seq<bool>>,
    pub declared: Option<int>,
    pub replaced: int,
    pub seen: Set<u32>,
}

/// The accumulators before any line is read.
pub open spec fn acc_init() -> AccV {
    AccV {
        version: None,
        name: None,
        size: None,
        bbox: None,
        swidth: None,
        dwidth: None,
        properties: Map::<Seq<char>, ValueV>::empty(),
        glyphs: Seq::<GlyphV>::empty(),
        glyph_name: None,
        glyph_encoding: None,
        glyph_swidth: None,
        glyph_dwidth: None,
        glyph_bbox: None,
        glyph_bitmap: Seq::<Seq<bool>>::empty(),
        declared: None,
        replaced: 0,
        seen: Set::<u32>::empty(),
    }
}

/// The executable accumulators; `declared`, `replaced` and `seen` are
/// ghost bookkeeping with no run-time content.
pub(crate) struct Acc {
    pub(crate) version: Option<i32>,
    pub(crate) name: Option<String>,
    pub(crate) size: Option<Size>,
    pub(crate) bbox: Option<BoundingBox>,
    pub(crate) swidth: Option<(String, String)>,
    pub(crate) dwidth: Option<(String, String)>,
    pub(crate) properties: Vec<(String, Value)>,
    pub(crate) glyphs: Vec<Glyph>,
    pub(crate) glyph_name: Option<String>,
    pub(crate) glyph_encoding: Option<u32>,
    pub(crate) glyph_swidth: Option<(String, String)>,
    pub(crate) glyph_dwidth: Option<(String, String)>,
    pub(crate) glyph_bbox: Option<BoundingBox>,
    pub(crate) glyph_bitmap: Vec<bit_vec::BitVec>,
    pub(crate) declared: Ghost<Option<int>>,
    pub(crate) replaced: Ghost<int>,
    pub(crate) seen: Ghost<Set<u32>>,
}

/// The view of an optional pair of strings.
pub open spec fn pair_opt_view(p: Option<(String, String)>) -> Option<(Seq<char>, Seq<char>)> {
    match p {
        Some(q) => Some((q.0@, q.1@)),
        None => None,
    }
}

/// The view of an optional string.
pub open spec fn str_opt_view(p: Option<String>) -> Option<Seq<char>> {
    match p {
        Some(q) => Some(q@),
        None => None,
    }
}

impl View for Acc {
    type V = AccV;

    open(crate) spec fn view(&self) -> AccV {
        AccV {
            version: self.version,
            name: str_opt_view(self.name),
            size: self.size,
            bbox: self.bbox,
            swidth: pair_opt_view(self.swidth),
            dwidth: pair_opt_view(self.dwidth),
            properties: props_map(self.properties@),
            glyphs: self.glyphs@.map_values(|g: Glyph| g@),
            glyph_name: str_opt_view(self.glyph_name),
            glyph_encoding: self.glyph_encoding,
            glyph_swidth: pair_opt_view(self.glyph_swidth),
            glyph_dwidth: pair_opt_view(self.glyph_dwidth),
            glyph_bbox: self.glyph_bbox,
            glyph_bitmap: self.glyph_bitmap@.map_values(|r: bit_vec::BitVec| bits_of(r)),
            declared: self.declared@,
            replaced: self.replaced@,
            seen: self.seen@,
        }
    }
}

/// What one property line yields: its key (the leading non-whitespace
/// run) and its value, a quoted string with doubled quotes decoded, or
/// an integer; anything else is refused.
pub open spec fn spec_prop_line(line: Seq<char>) -> Result<(Seq<char>, ValueV), ErrorV> {
    let k = first_ws(line);
    let key = line.take(k);
    let value = if k == line.len() {
        Seq::<char>::empty()
    } else {
        line.skip(k + 1)
    };
    if value.len() >= 1 && value[0] == '"' && value[value.len() - 1] == '"' {
        let inner = if value.len() >= 2 {
            value.subrange(1, value.len() - 1)
        } else {
            Seq::<char>::empty()
        };
        Ok((key, ValueV::Text(decode_quoted(inner))))
    } else {
        match dec_i32_of(value) {
            Some(v) => Ok((key, ValueV::Integer(v))),
            None => Err(ErrorV::InvalidPropertyValue(value)),
        }
    }
}

/// What one bitmap line yields: its hexadecimal digits paired into
/// bytes, each byte eight bits; a digit without a partner is refused.
pub open spec fn spec_row(line: Seq<char>) -> Result<Seq<bool>, ErrorV> {
    let d = hex_digits_of(line);
    if d.len() % 2 == 1 {
        Err(ErrorV::InvalidBitmapValue(seq![d.last()]))
    } else {
        Ok(bytes_to_bits(hex_bytes(d)))
    }
}

/// What applying one token to the parse state yields: the next state
/// and accumulators, or the error that refuses the token here.
pub open spec fn spec_apply(st: State, acc: AccV, t: TokenV) -> Result<(State, AccV), ErrorV> {
    match t {
        TokenV::StartFont { .. } => {
            if st is Initial {
                Ok((State::Font, acc))
            } else {
                Err(ErrorV::InvalidContext(t, st, "Initial"@))
            }
        },
        TokenV::Comment { .. } => Ok((st, acc)),
        TokenV::ContentVersion { ver } => {
            if st is Font {
                Ok((State::Font, AccV { version: Some(ver), ..acc }))
            } else {
                Err(ErrorV::InvalidContext(t, st, "Font"@))
            }
        },
        TokenV::Font { name } => {
            if st is Font {
                Ok((State::Font, AccV { name: Some(name), ..acc }))
            } else {
                Err(ErrorV::InvalidContext(t, st, "Font"@))
            }
        },
        TokenV::Size { pt, xres, yres } => {
            if st is Font {
                Ok((State::Font, AccV { size: Some(Size { pt, xres, yres }), ..acc }))
            } else {
                Err(ErrorV::InvalidContext(t, st, "Font"@))
            }
        },
        TokenV::FontBoundingBox { fbbx, fbby, xoff, yoff } => {
            if st is Font {
                Ok(
                    (
                        State::Font,
                        AccV {
                            bbox: Some(
                                BoundingBox {
                                    width: fbbx,
                                    height: fbby,
                                    offset_x: xoff,
                                    offset_y: yoff,
                                },
                            ),
                            ..acc
                        },
                    ),
                )
            } else {
                Err(ErrorV::InvalidContext(t, st, "Font"@))
            }
        },
        TokenV::MetricsSet { dir } => {
            if !(st is Font) {
                Err(ErrorV::InvalidContext(t, st, "Font"@))
            } else if dir is Horizontal {
                Ok((State::Font, acc))
            } else {
                Err(ErrorV::Unsupported("METRICSSET"@))
            }
        },
        TokenV::SWidth { swx0, swy0 } => {
            if st is Font {
                Ok((State::Font, AccV { swidth: Some((swx0, swy0)), ..acc }))
            } else {
                match st {
                    State::Glyph { .. } => Ok(
                        (st, AccV { glyph_swidth: Some((swx0, swy0)), ..acc }),
                    ),
                    _ => Err(ErrorV::InvalidContext(t, st, "Glyph"@)),
                }
            }
        },
        TokenV::DWidth { dwx0, dwy0 } => {
            if st is Font {
                Ok((State::Font, AccV { dwidth: Some((dwx0, dwy0)), ..acc }))
            } else {
                match st {
                    State::Glyph { .. } => Ok(
                        (st, AccV { glyph_dwidth: Some((dwx0, dwy0)), ..acc }),
                    ),
                    _ => Err(ErrorV::InvalidContext(t, st, "Glyph"@)),
                }
            }
        },
        TokenV::SWidthVertical { .. } => Err(ErrorV::Unsupported("SWIDTH1"@)),
        TokenV::DWidthVertical { .. } => Err(ErrorV::Unsupported("DWIDTH1"@)),
        TokenV::VVector { .. } => Err(ErrorV::Unsupported("VVECTOR"@)),
        TokenV::StartProperties { n } => {
            if st is Font {
                Ok((State::Properties { len: n }, acc))
            } else {
                Err(ErrorV::InvalidContext(t, st, "Font"@))
            }
        },
        TokenV::EndProperties => {
            match st {
                State::Properties { len } => {
                    if len != 0 {
                        Err(ErrorV::UnexpectedEnd("Properties"@))
                    } else {
                        Ok((State::Font, acc))
                    }
                },
                _ => Err(ErrorV::InvalidContext(t, st, "Properties"@)),
            }
        },
        TokenV::Chars { nglyphs } => {
            if st is Font {
                Ok((State::Chars { len: nglyphs }, AccV { declared: Some(nglyphs as int), ..acc }))
            } else {
                Err(ErrorV::InvalidContext(t, st, "Font"@))
            }
        },
        TokenV::StartChar { name } => {
            match st {
                State::Chars { len } => {
                    if len == 0 {
                        // more glyphs than the `CHARS` count declared
                        Err(ErrorV::InvalidContext(t, st, "Chars"@))
                    } else {
                        Ok(
                            (
                                State::Glyph { chars: len },
                                AccV {
                                    glyph_name: Some(name),
                                    glyph_encoding: None,
                                    glyph_swidth: acc.swidth,
                                    glyph_dwidth: acc.dwidth,
                                    glyph_bbox: acc.bbox,
                                    glyph_bitmap: Seq::<Seq<bool>>::empty(),
                                    ..acc
                                },
                            ),
                        )
                    }
                },
                _ => Err(ErrorV::InvalidContext(t, st, "Chars"@)),
            }
        },
        TokenV::Encoding { enc } => {
            match st {
                State::Glyph { .. } => Ok((st, AccV { glyph_encoding: Some(enc), ..acc })),
                _ => Err(ErrorV::InvalidContext(t, st, "Glyph"@)),
            }
        },
        TokenV::BoundingBox { bbw, bbh, bbxoff, bbyoff } => {
            match st {
                State::Glyph { .. } => Ok(
                    (
                        st,
                        AccV {
                            glyph_bbox: Some(
                                BoundingBox {
                                    width: bbw,
                                    height: bbh,
                                    offset_x: bbxoff,
                                    offset_y: bbyoff,
                                },
                            ),
                            ..acc
                        },
                    ),
                ),
                _ => Err(ErrorV::InvalidContext(t, st, "Glyph"@)),
            }
        },
        TokenV::Bitmap => {
            match st {
                State::Glyph { chars } => match acc.glyph_bbox {
                    Some(b) => Ok((State::Bitmap { chars, len: b.height as usize }, acc)),
                    None => Err(ErrorV::MissingGlyphBoundingBox),
                },
                _ => Err(ErrorV::InvalidContext(t, st, "Glyph"@)),
            }
        },
        TokenV::EndChar => {
            match st {
                State::Bitmap { chars, len } => {
                    if len != 0 {
                        Err(ErrorV::UnexpectedEnd("Char"@))
                    } else {
                        match acc.glyph_encoding {
                            None => Err(ErrorV::MissingGlyphEncoding),
                            Some(enc) => match acc.glyph_bbox {
                                None => Err(ErrorV::MissingGlyphBoundingBox),
                                Some(bbox) => {
                                    let g = GlyphV {
                                        name: acc.glyph_name->Some_0,
                                        encoding: enc,
                                        swidth: acc.glyph_swidth,
                                        dwidth: acc.glyph_dwidth,
                                        bbox,
                                        bitmap: acc.glyph_bitmap,
                                    };
                                    Ok(
                                        (
                                            State::Chars { len: (chars - 1) as usize },
                                            AccV {
                                                glyphs: glyphs_insert(acc.glyphs, g),
                                                glyph_name: None,
                                                glyph_bitmap: Seq::<Seq<bool>>::empty(),
                                                replaced: acc.replaced + if glyphs_find(
                                                    acc.glyphs,
                                                    enc,
                                                ) is Some {
                                                    1int
                                                } else {
                                                    0int
                                                },
                                                seen: acc.seen.insert(enc),
                                                ..acc
                                            },
                                        ),
                                    )
                                },
                            },
                        }
                    }
                },
                _ => Err(ErrorV::InvalidContext(t, st, "Bitmap"@)),
            }
        },
        TokenV::EndFont => {
            match st {
                State::Chars { len } => {
                    if len != 0 {
                        Err(ErrorV::UnexpectedEnd("Font"@))
                    } else {
                        Ok((State::Final, acc))
                    }
                },
                _ => Err(ErrorV::InvalidContext(t, st, "Chars"@)),
            }
        },
    }
}

/// What one line does to the parse: an owed property or bitmap line is
/// consumed directly; any other line goes through the token grammar, a
/// blank one changing nothing. An owed line that reads `ENDPROPERTIES`
/// or `ENDCHAR` does not count as data: it closes its section early,
/// which the grammar refuses.
pub open spec fn spec_step(st: State, acc: AccV, line: Seq<char>) -> Result<
    (State, AccV),
    ErrorV,
> {
    match st {
        State::Properties { len } => {
            if len > 0 {
                if crate::strutil::fields_of(line) == seq!["ENDPROPERTIES"@] {
                    Err(ErrorV::UnexpectedEnd("Properties"@))
                } else {
                    match spec_prop_line(line) {
                        Ok((key, v)) => Ok(
                            (
                                State::Properties { len: (len - 1) as usize },
                                AccV { properties: acc.properties.insert(key, v), ..acc },
                            ),
                        ),
                        Err(e) => Err(e),
                    }
                }
            } else {
                spec_token_step(st, acc, line)
            }
        },
        State::Bitmap { chars, len } => {
            if len > 0 {
                if crate::strutil::fields_of(line) == seq!["ENDCHAR"@] {
                    Err(ErrorV::UnexpectedEnd("Char"@))
                } else {
                    match spec_row(line) {
                        Ok(bits) => Ok(
                            (
                                State::Bitmap { chars, len: (len - 1) as usize },
                                AccV { glyph_bitmap: acc.glyph_bitmap.push(bits), ..acc },
                            ),
                        ),
                        Err(e) => Err(e),
                    }
                }
            } else {
                spec_token_step(st, acc, line)
            }
        },
        _ => spec_token_step(st, acc, line),
    }
}

/// The tokenized path of [`spec_step`].
pub open spec fn spec_token_step(st: State, acc: AccV, line: Seq<char>) -> Result<
    (State, AccV),
    ErrorV,
> {
    match tokens::spec_parse_line(line) {
        Err(e) => Err(ErrorV::SyntaxError(e)),
        Ok(None) => Ok((st, acc)),
        Ok(Some(t)) => spec_apply(st, acc, t),
    }
}

/// The fold of [`spec_step`] over a whole line sequence, stopped at the
/// first error: the state and accumulators after all lines are consumed.
pub open spec fn spec_run(lines: Seq<Seq<char>>) -> Result<(State, AccV), ErrorV>
    decreases lines.len(),
{
    if lines.len() == 0 {
        Ok((State::Initial, acc_init()))
    } else {
        match spec_run(lines.drop_last()) {
            Err(e) => Err(e),
            Ok((st, acc)) => spec_step(st, acc, lines.last()),
        }
    }
}

/// What closing the parse yields: the font, or the first font-level
/// field that was never declared.
pub open spec fn spec_finalize(acc: AccV) -> Result<FontV, ErrorV> {
    if acc.name is None {
        Err(ErrorV::MissingFontName)
    } else if acc.bbox is None {
        Err(ErrorV::MissingFontBoundingBox)
    } else if acc.size is None {
        Err(ErrorV::MissingFontSize)
    } else {
        Ok(
            FontV {
                version: acc.version,
                name: acc.name->Some_0,
                bbox: acc.bbox->Some_0,
                size: acc.size->Some_0,
                properties: acc.properties,
                glyphs: acc.glyphs,
            },
        )
    }
}

/// What reading a whole document yields. The end of input closes the
/// parse in whatever state it stands: a truncated document is accepted
/// as long as the font-level fields were declared.
pub open spec fn spec_read(lines: Seq<Seq<char>>) -> Result<FontV, ErrorV> {
    match spec_run(lines) {
        Err(e) => Err(e),
        Ok((st, acc)) => spec_finalize(acc),
    }
}

/// What every reachable parse state satisfies: the glyph collection is
/// sorted and uniquely keyed, every finished glyph stores as many rows
/// as its box declares, the counts owed by `CHARS` add up, and the
/// accumulators of an open glyph are in shape.
pub open spec fn run_inv(st: State, acc: AccV) -> bool {
    &&& glyphs_sorted(acc.glyphs)
    &&& acc.replaced >= 0
    &&& acc.seen == glyph_encodings(acc.glyphs)
    &&& forall|i: int|
        0 <= i < acc.glyphs.len() ==> (#[trigger] acc.glyphs[i]).bitmap.len()
            == acc.glyphs[i].bbox.height
    &&& match st {
        State::Initial | State::Font => acc.glyphs.len() == 0 && acc.replaced == 0
            && acc.declared is None,
        State::Properties { .. } => acc.glyphs.len() == 0 && acc.replaced == 0
            && acc.declared is None,
        State::Chars { len } => acc.declared == Some(
            acc.glyphs.len() + acc.replaced + len as int,
        ),
        State::Glyph { chars } => acc.declared == Some(
            acc.glyphs.len() + acc.replaced + chars as int,
        ) && chars >= 1 && acc.glyph_name is Some && acc.glyph_bitmap.len() == 0,
        State::Bitmap { chars, len } => acc.declared == Some(
            acc.glyphs.len() + acc.replaced + chars as int,
        ) && chars >= 1 && acc.glyph_name is Some && acc.glyph_bbox is Some
            && acc.glyph_bitmap.len() + len == acc.glyph_bbox->Some_0.height,
        State::Final => acc.declared == Some(acc.glyphs.len() + acc.replaced),
    }
}

/// One step keeps [`run_inv`].
pub proof fn lemma_step_inv(st: State, acc: AccV, line: Seq<char>)
    requires
        run_inv(st, acc),
        spec_step(st, acc, line) is Ok,
    ensures
        run_inv(
            spec_step(st, acc, line)->Ok_0.0,
            spec_step(st, acc, line)->Ok_0.1,
        ),
{
    match st {
        State::Properties { len } => {
            if len > 0 {
            } else {
                lemma_token_step_inv(st, acc, line);
            }
        },
        State::Bitmap { chars, len } => {
            if len > 0 {
            } else {
                lemma_token_step_inv(st, acc, line);
            }
        },
        _ => {
            lemma_token_step_inv(st, acc, line);
        },
    }
}

proof fn lemma_token_step_inv(st: State, acc: AccV, line: Seq<char>)
    requires
        run_inv(st, acc),
        spec_token_step(st, acc, line) is Ok,
    ensures
        run_inv(
            spec_token_step(st, acc, line)->Ok_0.0,
            spec_token_step(st, acc, line)->Ok_0.1,
        ),
{
    match tokens::spec_parse_line(line) {
        Err(_) => {},
        Ok(None) => {},
        Ok(Some(t)) => {
            lemma_apply_inv(st, acc, t);
        },
    }
}

proof fn lemma_apply_inv(st: State, acc: AccV, t: TokenV)
    requires
        run_inv(st, acc),
        spec_apply(st, acc, t) is Ok,
    ensures
        run_inv(spec_apply(st, acc, t)->Ok_0.0, spec_apply(st, acc, t)->Ok_0.1),
{
    let acc2 = spec_apply(st, acc, t)->Ok_0.1;
    match t {
        TokenV::EndChar => {
            match st {
                State::Bitmap { chars, len } => if len == 0 && acc.glyph_encoding is Some
                    && acc.glyph_bbox is Some {
                    let enc = acc.glyph_encoding->Some_0;
                    let g = GlyphV {
                        name: acc.glyph_name->Some_0,
                        encoding: enc,
                        swidth: acc.glyph_swidth,
                        dwidth: acc.glyph_dwidth,
                        bbox: acc.glyph_bbox->Some_0,
                        bitmap: acc.glyph_bitmap,
                    };
                    lemma_glyphs_insert_props(acc.glyphs, g);
                    lemma_glyphs_insert_encodings(acc.glyphs, g);
                    assert forall|i: int| 0 <= i < acc2.glyphs.len() implies (
                    #[trigger] acc2.glyphs[i]).bitmap.len() == acc2.glyphs[i].bbox.height by {
                        if acc2.glyphs[i] != g {
                            assert(acc.glyphs.contains(acc2.glyphs[i]));
                            let w = choose|w: int|
                                0 <= w < acc.glyphs.len() && acc.glyphs[w] == acc2.glyphs[i];
                            assert(acc.glyphs[w].bitmap.len() == acc.glyphs[w].bbox.height);
                        }
                    }
                },
                _ => {},
            }
        },
        _ => {},
    }
}

/// A view-preserving copy of an optional pair of number texts.
fn clone_pair_opt(p: &Option<(String, String)>) -> (r: Option<(String, String)>)
    ensures
        pair_opt_view(r) == pair_opt_view(*p),
{
    match p {
        Some(q) => Some((q.0.clone(), q.1.clone())),
        None => None,
    }
}

/// The value of one hexadecimal digit.
fn hex_digit_val(c: char) -> (r: u8)
    requires
        is_hex_char(c),
    ensures
        r == hex_val(c),
        r <= 15,
{
    if c >= '0' && c <= '9' {
        (c as u32 - '0' as u32) as u8
    } else if c >= 'a' && c <= 'f' {
        (c as u32 - 'a' as u32 + 10) as u8
    } else {
        (c as u32 - 'A' as u32 + 10) as u8
    }
}

/// Reads one `key value` property line: the key runs to the first
/// whitespace character, the value is what follows the separator.
fn parse_prop(line: &str) -> (r: Result<(String, Value), Error>)
    ensures
        match (r, spec_prop_line(line@)) {
            (Ok((k, v)), Ok((sk, sv))) => k@ == sk && v@ == sv,
            (Err(e), Err(ev)) => e@ == ev,
            _ => false,
        },
{
    let n = line.unicode_len();
    let mut k: usize = 0;
    while k < n && !crate::strutil::is_ws(line.get_char(k))
        invariant
            k <= n,
            n == line@.len(),
            forall|j: int| 0 <= j < k ==> !is_ws_char(line@[j]),
        decreases n - k,
    {
        k = k + 1;
    }
    proof {
        lemma_first_ws_at(line@, k as int);
    }
    let key = line.substring_char(0, k).to_owned();
    proof {
        assert(line@.subrange(0, k as int) =~= line@.take(k as int));
    }
    if k == n {
        // a line with no separator has an empty value, which no branch
        // accepts
        proof {
            assert(spec_prop_line(line@) == Err::<(Seq<char>, ValueV), ErrorV>(
                ErrorV::InvalidPropertyValue(Seq::<char>::empty()),
            ));
        }
        return Err(Error::InvalidPropertyValue(String::new()));
    }
    let vstart = k + 1;
    let ghost value = line@.skip(vstart as int);
    if vstart < n && line.get_char(vstart) == '"' && line.get_char(n - 1) == '"' {
        proof {
            assert(value[0] == line@[vstart as int]);
            assert(value[value.len() - 1] == line@[n - 1]);
        }
        let decoded = if n - vstart >= 2 {
            proof {
                assert(value.subrange(1, value.len() - 1) =~= line@.subrange(
                    vstart + 1,
                    n - 1,
                ));
            }
            decode_quoted_range(line, vstart + 1, n - 1)
        } else {
            String::new()
        };
        Ok((key, Value::String(decoded)))
    } else {
        proof {
            if value.len() >= 1 {
                assert(value[0] == line@[vstart as int]);
                assert(value[value.len() - 1] == line@[n - 1]);
            }
        }
        let vs = line.substring_char(vstart, n);
        proof {
            assert(line@.subrange(vstart as int, n as int) =~= value);
        }
        match parse_i32_text(vs) {
            Some(i) => Ok((key, Value::Integer(i))),
            None => Err(Error::InvalidPropertyValue(vs.to_owned())),
        }
    }
}

/// Reads one line of hexadecimal bitmap data into a row of bits; other
/// characters are passed over, and a digit without a partner is refused.
fn bitmap_row(line: &str) -> (r: Result<bit_vec::BitVec, Error>)
    ensures
        match (r, spec_row(line@)) {
            (Ok(bv), Ok(bits)) => bits_of(bv) == bits,
            (Err(e), Err(ev)) => e@ == ev,
            _ => false,
        },
{
    let n = line.unicode_len();
    let mut raw: Vec<u8> = Vec::new();
    let mut pending: Option<char> = None;
    let mut i: usize = 0;
    proof {
        assert(line@.take(0) =~= Seq::<char>::empty());
        assert(raw@ =~= hex_bytes(hex_digits_of(line@.take(0))));
    }
    while i < n
        invariant
            i <= n,
            n == line@.len(),
            ({
                let fd = hex_digits_of(line@.take(i as int));
                if fd.len() % 2 == 0 {
                    pending is None && raw@ == hex_bytes(fd)
                } else {
                    pending == Some(fd.last()) && is_hex_char(fd.last()) && raw@ == hex_bytes(
                        fd.drop_last(),
                    )
                }
            }),
        decreases n - i,
    {
        let c = line.get_char(i);
        let ghost fd = hex_digits_of(line@.take(i as int));
        proof {
            assert(line@.take(i + 1) =~= line@.take(i as int).push(line@[i as int]));
            assert(line@.take(i + 1).drop_last() =~= line@.take(i as int));
        }
        let is_hex = (c >= '0' && c <= '9') || (c >= 'a' && c <= 'f') || (c >= 'A' && c <= 'F');
        if is_hex {
            let ghost fd2 = hex_digits_of(line@.take(i + 1));
            proof {
                assert(fd2 == fd.push(line@[i as int]));
            }
            match pending {
                None => {
                    proof {
                        assert(fd2.drop_last() =~= fd);
                    }
                    pending = Some(c);
                },
                Some(p) => {
                    let byte: u8 = hex_digit_val(p) * 16 + hex_digit_val(c);
                    proof {
                        assert(fd2.drop_last() =~= fd);
                        assert(fd2.drop_last().drop_last() =~= fd.drop_last());
                        assert(fd2[fd2.len() - 2] == fd.last());
                        assert(fd2[fd2.len() - 1] == line@[i as int]);
                    }
                    raw.push(byte);
                    pending = None;
                },
            }
        }
        i = i + 1;
    }
    proof {
        assert(line@.take(n as int) =~= line@);
    }
    match pending {
        Some(p) => {
            let mut digit = String::new();
            push_char(&mut digit, p);
            proof {
                assert(digit@ =~= seq![p]);
            }
            Err(Error::InvalidBitmapValue(digit))
        },
        None => Ok(bitvec_from_bytes(&raw)),
    }
}

/// Applies one token to the parse: the transition that the grammar
/// allows here, or the error that refuses it.
fn apply_token(st: State, acc: &mut Acc, token: Token) -> (r: Result<State, Error>)
    requires
        run_inv(st, old(acc)@),
    ensures
        match spec_apply(st, old(acc)@, token@) {
            Ok((st2, a2)) => r matches Ok(s) && s == st2 && final(acc)@ == a2,
            Err(e) => r matches Err(er) && er@ == e,
        },
{
    match &token {
        Token::StartFont { .. } => {
            st.assert_initial(&token)?;
            Ok(State::Font)
        },
        Token::Comment { .. } => Ok(st),
        Token::ContentVersion { ver } => {
            st.assert_font(&token)?;
            acc.version = Some(*ver);
            Ok(State::Font)
        },
        Token::Font { name } => {
            st.assert_font(&token)?;
            acc.name = Some(name.clone());
            Ok(State::Font)
        },
        Token::Size { pt, xres, yres } => {
            st.assert_font(&token)?;
            acc.size = Some(Size { pt: *pt, xres: *xres, yres: *yres });
            Ok(State::Font)
        },
        Token::FontBoundingBox { fbbx, fbby, xoff, yoff } => {
            st.assert_font(&token)?;
            acc.bbox = Some(
                BoundingBox { width: *fbbx, height: *fbby, offset_x: *xoff, offset_y: *yoff },
            );
            Ok(State::Font)
        },
        Token::MetricsSet { dir } => {
            st.assert_font(&token)?;
            match dir {
                WritingDirection::Horizontal => Ok(State::Font),
                _ => Err(Error::Unsupported("METRICSSET")),
            }
        },
        Token::SWidth { swx0, swy0 } => {
            match st {
                State::Font => {
                    acc.swidth = Some((swx0.clone(), swy0.clone()));
                    Ok(State::Font)
                },
                _ => {
                    st.assert_glyph(&token)?;
                    acc.glyph_swidth = Some((swx0.clone(), swy0.clone()));
                    Ok(st)
                },
            }
        },
        Token::DWidth { dwx0, dwy0 } => {
            match st {
                State::Font => {
                    acc.dwidth = Some((dwx0.clone(), dwy0.clone()));
                    Ok(State::Font)
                },
                _ => {
                    st.assert_glyph(&token)?;
                    acc.glyph_dwidth = Some((dwx0.clone(), dwy0.clone()));
                    Ok(st)
                },
            }
        },
        Token::SWidthVertical { .. } => Err(Error::Unsupported("SWIDTH1")),
        Token::DWidthVertical { .. } => Err(Error::Unsupported("DWIDTH1")),
        Token::VVector { .. } => Err(Error::Unsupported("VVECTOR")),
        Token::StartProperties { n } => {
            st.assert_font(&token)?;
            Ok(State::Properties { len: *n })
        },
        Token::EndProperties => {
            let len = st.assert_properties(&token)?;
            if len != 0 {
                return Err(Error::UnexpectedEnd("Properties"));
            }
            Ok(State::Font)
        },
        Token::Chars { nglyphs } => {
            st.assert_font(&token)?;
            acc.declared = Ghost(Some(*nglyphs as int));
            Ok(State::Chars { len: *nglyphs })
        },
        Token::StartChar { name } => {
            let chars = st.assert_chars(&token)?;
            if chars == 0 {
                // more glyphs than the `CHARS` count declared
                return Err(Error::InvalidContext(token.clone(), st, "Chars"));
            }
            acc.glyph_name = Some(name.clone());
            acc.glyph_encoding = None;
            acc.glyph_swidth = clone_pair_opt(&acc.swidth);
            acc.glyph_dwidth = clone_pair_opt(&acc.dwidth);
            acc.glyph_bbox = acc.bbox;
            acc.glyph_bitmap = Vec::new();
            proof {
                assert(acc@.glyph_bitmap =~= Seq::<Seq<bool>>::empty());
            }
            Ok(State::Glyph { chars })
        },
        Token::Encoding { enc } => {
            st.assert_glyph(&token)?;
            acc.glyph_encoding = Some(*enc);
            Ok(st)
        },
        Token::BoundingBox { bbw, bbh, bbxoff, bbyoff } => {
            st.assert_glyph(&token)?;
            acc.glyph_bbox = Some(
                BoundingBox { width: *bbw, height: *bbh, offset_x: *bbxoff, offset_y: *bbyoff },
            );
            Ok(st)
        },
        Token::Bitmap => {
            let chars = st.assert_glyph(&token)?;
            match acc.glyph_bbox {
                Some(b) => Ok(State::Bitmap { chars, len: b.height as usize }),
                None => Err(Error::MissingGlyphBoundingBox),
            }
        },
        Token::EndChar => {
            let (chars, len) = st.assert_bitmap(&token)?;
            if len != 0 {
                return Err(Error::UnexpectedEnd("Char"));
            }
            let enc = match acc.glyph_encoding {
                Some(e) => e,
                None => {
                    return Err(Error::MissingGlyphEncoding);
                },
            };
            let bbox = match acc.glyph_bbox {
                Some(b) => b,
                None => {
                    return Err(Error::MissingGlyphBoundingBox);
                },
            };
            let name = acc.glyph_name.take().unwrap();
            let mut rows: Vec<bit_vec::BitVec> = Vec::new();
            core::mem::swap(&mut acc.glyph_bitmap, &mut rows);
            let g = Glyph {
                name,
                encoding: enc,
                swidth: clone_pair_opt(&acc.glyph_swidth),
                dwidth: clone_pair_opt(&acc.glyph_dwidth),
                bbox,
                bitmap: rows,
            };
            proof {
                acc.replaced@ = if glyphs_find(old(acc)@.glyphs, enc) is Some {
                    old(acc)@.replaced + 1
                } else {
                    old(acc)@.replaced
                };
                acc.seen@ = old(acc)@.seen.insert(enc);
                assert(acc@.glyph_bitmap =~= Seq::<Seq<bool>>::empty());
            }
            glyphs_put(&mut acc.glyphs, g);
            Ok(State::Chars { len: chars - 1 })
        },
        Token::EndFont => {
            let chars = st.assert_chars(&token)?;
            if chars != 0 {
                return Err(Error::UnexpectedEnd("Font"));
            }
            Ok(State::Final)
        },
    }
}

/// Consumes one line in the given state.
fn step(st: State, acc: &mut Acc, line: &str) -> (r: Result<State, Error>)
    requires
        run_inv(st, old(acc)@),
    ensures
        match spec_step(st, old(acc)@, line@) {
            Ok((st2, a2)) => r matches Ok(s) && s == st2 && final(acc)@ == a2,
            Err(e) => r matches Err(er) && er@ == e,
        },
{
    match st {
        State::Properties { len } if len > 0 => {
            let fields = crate::strutil::split_fields(line);
            let is_endprops = fields.len() == 1 && crate::strutil::str_eq(
                fields[0].as_str(),
                "ENDPROPERTIES",
            );
            proof {
                let fsv = fields@.map_values(|f: String| f@);
                assert(fsv[0] == fields@[0]@);
                if is_endprops {
                    assert(fsv =~= seq!["ENDPROPERTIES"@]);
                } else {
                    assert(fsv != seq!["ENDPROPERTIES"@]);
                }
            }
            if is_endprops {
                return Err(Error::UnexpectedEnd("Properties"));
            }
            match parse_prop(line) {
                Err(e) => Err(e),
                Ok((key, v)) => {
                    let ghost kk = key@;
                    let ghost vv = v@;
                    acc.properties.push((key, v));
                    proof {
                        assert(acc.properties@.drop_last() =~= old(acc).properties@);
                        assert(acc@ =~= (AccV {
                            properties: old(acc)@.properties.insert(kk, vv),
                            ..old(acc)@
                        }));
                    }
                    Ok(State::Properties { len: len - 1 })
                },
            }
        },
        State::Bitmap { chars, len } if len > 0 => {
            let fields = crate::strutil::split_fields(line);
            let is_endchar = fields.len() == 1 && crate::strutil::str_eq(
                fields[0].as_str(),
                "ENDCHAR",
            );
            proof {
                let fsv = fields@.map_values(|f: String| f@);
                assert(fsv[0] == fields@[0]@);
                if is_endchar {
                    assert(fsv =~= seq!["ENDCHAR"@]);
                } else {
                    assert(fsv != seq!["ENDCHAR"@]);
                }
            }
            if is_endchar {
                return Err(Error::UnexpectedEnd("Char"));
            }
            match bitmap_row(line) {
                Err(e) => Err(e),
                Ok(bv) => {
                    let ghost bits = bits_of(bv);
                    acc.glyph_bitmap.push(bv);
                    proof {
                        assert(acc@.glyph_bitmap =~= old(acc)@.glyph_bitmap.push(bits));
                        assert(acc@ =~= (AccV {
                            glyph_bitmap: old(acc)@.glyph_bitmap.push(bits),
                            ..old(acc)@
                        }));
                    }
                    Ok(State::Bitmap { chars, len: len - 1 })
                },
            }
        },
        _ => {
            match Token::parse_line(line) {
                Err(e) => Err(Error::SyntaxError(e)),
                Ok(None) => Ok(st),
                Ok(Some(token)) => apply_token(st, acc, token),
            }
        },
    }
}

/// Once an earlier line has failed, the whole run fails with its error.
proof fn lemma_run_err(ls: Seq<Seq<char>>, i: int)
    requires
        0 <= i < ls.len(),
        spec_run(ls.take(i + 1)) is Err,
    ensures
        spec_run(ls) == spec_run(ls.take(i + 1)),
    decreases ls.len() - i,
{
    if i + 1 == ls.len() {
        assert(ls.take(i + 1) =~= ls);
    } else {
        assert(ls.take(i + 2).drop_last() =~= ls.take(i + 1));
        lemma_run_err(ls, i + 1);
    }
}

impl Font {
    /// Reads a BDF document given as its lines, without their line
    /// terminators, and yields the font it describes, or the first error
    /// that refuses it.
    pub fn read(lines: &Vec<String>) -> (r: Result<Font, Error>)
        ensures
            match spec_read(lines@.map_values(|l: String| l@)) {
                Ok(fv) => r matches Ok(f) && f@ == fv,
                Err(e) => r matches Err(er) && er@ == e,
            },
    {
        let ghost ls = lines@.map_values(|l: String| l@);
        let mut acc = Acc {
            version: None,
            name: None,
            size: None,
            bbox: None,
            swidth: None,
            dwidth: None,
            properties: Vec::new(),
            glyphs: Vec::new(),
            glyph_name: None,
            glyph_encoding: None,
            glyph_swidth: None,
            glyph_dwidth: None,
            glyph_bbox: None,
            glyph_bitmap: Vec::new(),
            declared: Ghost(None),
            replaced: Ghost(0int),
            seen: Ghost(Set::<u32>::empty()),
        };
        let mut state = State::Initial;
        proof {
            assert(ls.take(0) =~= Seq::<Seq<char>>::empty());
            assert(acc@ =~= acc_init());
            assert(acc@.seen =~= glyph_encodings(acc@.glyphs));
        }
        let mut i: usize = 0;
        while i < lines.len()
            invariant
                ls == lines@.map_values(|l: String| l@),
                i <= lines@.len(),
                spec_run(ls.take(i as int)) == Ok::<(State, AccV), ErrorV>((state, acc@)),
                run_inv(state, acc@),
            decreases lines@.len() - i,
        {
            proof {
                assert(ls.take(i + 1).drop_last() =~= ls.take(i as int));
                assert(ls.take(i + 1).last() == ls[i as int]);
                assert(ls[i as int] == lines@[i as int]@);
            }
            let ghost pre = acc@;
            match step(state, &mut acc, lines[i].as_str()) {
                Ok(st2) => {
                    proof {
                        lemma_step_inv(state, pre, ls[i as int]);
                    }
                    state = st2;
                },
                Err(e) => {
                    proof {
                        lemma_run_err(ls, i as int);
                    }
                    return Err(e);
                },
            }
            i = i + 1;
        }
        proof {
            assert(ls.take(lines@.len() as int) =~= ls);
        }
        let ghost accv = acc@;
        let Acc { version, name, size, bbox, properties, glyphs, .. } = acc;
        let name = match name {
            Some(n) => n,
            None => {
                return Err(Error::MissingFontName);
            },
        };
        let bbox = match bbox {
            Some(b) => b,
            None => {
                return Err(Error::MissingFontBoundingBox);
            },
        };
        let size = match size {
            Some(s) => s,
            None => {
                return Err(Error::MissingFontSize);
            },
        };
        Ok(Font { version, name, bbox, size, properties, glyphs })
    }
}

} // verus!\n