//! The data model of a parsed font: the metadata value types, the glyph
//! with its metrics and bitmap rows, and the font with its uniquely keyed,
//! encoding-ordered glyph collection.

use vstd::prelude::*;

use crate::bitmap::Bitmap;
use crate::bitvec::bits_of;
use crate::strutil::str_eq;

verus! {

/// A glyph or font-wide pixel box, with the displacement of its lower
/// left corner from the origin.
#[derive(Clone, Copy, Debug, PartialEq, Eq, Structural)]
pub struct BoundingBox {
    pub width: u32,
    pub height: u32,
    pub offset_x: i32,
    pub offset_y: i32,
}

/// The point size of the glyphs and the device resolution.
#[derive(Clone, Copy, Debug, PartialEq, Eq, Structural)]
pub struct Size {
    pub pt: u32,
    pub xres: u32,
    pub yres: u32,
}

/// A font property value: an integer, or a quoted string with its quotes
/// decoded.
#[derive(Debug)]
pub enum Value {
    Integer(i32),
    String(String),
}

/// The mathematical shadow of a [`Value`].
pub enum ValueV {
    Integer(i32),
    Text(Seq<char>),
}

impl View for Value {
    type V = ValueV;

    open spec fn view(&self) -> ValueV {
        match self {
            Value::Integer(i) => ValueV::Integer(*i),
            Value::String(s) => ValueV::Text(s@),
        }
    }
}

/// The mapping that a property list denotes: a later entry with the same
/// key overrides an earlier one.
pub open spec fn props_map(entries: Seq<(String, Value)>) -> Map<Seq<char>, ValueV>
    decreases entries.len(),
{
    if entries.len() == 0 {
        Map::<Seq<char>, ValueV>::empty()
    } else {
        props_map(entries.drop_last()).insert(entries.last().0@, entries.last().1@)
    }
}

proof fn lemma_props_map_found(entries: Seq<(String, Value)>, key: Seq<char>, j: int)
    requires
        0 <= j < entries.len(),
        entries[j].0@ == key,
        forall|l: int| j < l < entries.len() ==> entries[l].0@ != key,
    ensures
        props_map(entries).contains_key(key),
        props_map(entries)[key] == entries[j].1@,
    decreases entries.len(),
{
    if j < entries.len() - 1 {
        lemma_props_map_found(entries.drop_last(), key, j);
    }
}

proof fn lemma_props_map_absent(entries: Seq<(String, Value)>, key: Seq<char>)
    requires
        forall|l: int| 0 <= l < entries.len() ==> entries[l].0@ != key,
    ensures
        !props_map(entries).contains_key(key),
    decreases entries.len(),
{
    if entries.len() > 0 {
        lemma_props_map_absent(entries.drop_last(), key);
    }
}

/// One glyph of a font: its name, unique encoding, optional widths held
/// as number text, bounding box, and bitmap rows.
#[derive(Debug)]
pub struct Glyph {
    pub(crate) name: String,
    pub(crate) encoding: u32,
    pub(crate) swidth: Option<(String, String)>,
    pub(crate) dwidth: Option<(String, String)>,
    pub(crate) bbox: BoundingBox,
    pub(crate) bitmap: Vec<bit_vec::BitVec>,
}

/// The mathematical shadow of a [`Glyph`], bitmap rows as bit sequences.
#[verifier::ext_equal]
pub struct GlyphV {
    pub name: Seq<char>,
    pub encoding: u32,
    pub swidth: Option<(Seq<char>, Seq<char>)>,
    pub dwidth: Option<(Seq<char>, Seq<char>)>,
    pub bbox: BoundingBox,
    pub bitmap: Seq<Seq<bool>>,
}

impl View for Glyph {
    type V = GlyphV;

    open(crate) spec fn view(&self) -> GlyphV {
        GlyphV {
            name: self.name@,
            encoding: self.encoding,
            swidth: match self.swidth {
                Some(p) => Some((p.0@, p.1@)),
                None => None,
            },
            dwidth: match self.dwidth {
                Some(p) => Some((p.0@, p.1@)),
                None => None,
            },
            bbox: self.bbox,
            bitmap: self.bitmap@.map_values(|r: bit_vec::BitVec| bits_of(r)),
        }
    }
}

impl Glyph {
    /// The name of this glyph as the font gives it.
    pub fn name(&self) -> (r: &str)
        ensures
            r@ == self@.name,
    {
        self.name.as_str()
    }

    /// The encoding value of this glyph.
    pub fn encoding(&self) -> (r: u32)
        ensures
            r == self@.encoding,
    {
        self.encoding
    }

    /// The scalable width of this glyph, as number text.
    pub fn swidth(&self) -> (r: Option<(String, String)>)
        ensures
            match (r, self@.swidth) {
                (Some(p), Some(sp)) => p.0@ == sp.0 && p.1@ == sp.1,
                (None, None) => true,
                _ => false,
            },
    {
        match &self.swidth {
            Some(p) => Some((p.0.clone(), p.1.clone())),
            None => None,
        }
    }

    /// The device width of this glyph, as number text.
    pub fn dwidth(&self) -> (r: Option<(String, String)>)
        ensures
            match (r, self@.dwidth) {
                (Some(p), Some(sp)) => p.0@ == sp.0 && p.1@ == sp.1,
                (None, None) => true,
                _ => false,
            },
    {
        match &self.dwidth {
            Some(p) => Some((p.0.clone(), p.1.clone())),
            None => None,
        }
    }

    /// The bounding box of this glyph.
    pub fn bounding_box(&self) -> (r: BoundingBox)
        ensures
            r == self@.bbox,
    {
        self.bbox
    }

    /// A read-only view of this glyph's bitmap.
    pub fn bitmap(&self) -> (r: Bitmap<'_>)
        ensures
            r@.rows == self@.bitmap,
            r@.bbox == self@.bbox,
    {
        Bitmap { data: &self.bitmap, bbox: self.bbox }
    }
}

/// Encodings strictly ascending: each appears once, in order.
pub open spec fn glyphs_sorted(s: Seq<GlyphV>) -> bool {
    forall|i: int, j: int| 0 <= i < j < s.len() ==> s[i].encoding < s[j].encoding
}

/// Insertion keyed by encoding: a glyph with a present encoding replaces
/// the old one, any other takes its ordered place.
pub open spec fn glyphs_insert(s: Seq<GlyphV>, g: GlyphV) -> Seq<GlyphV>
    decreases s.len(),
{
    if s.len() == 0 {
        seq![g]
    } else if g.encoding < s[0].encoding {
        seq![g] + s
    } else if g.encoding == s[0].encoding {
        seq![g] + s.drop_first()
    } else {
        seq![s[0]] + glyphs_insert(s.drop_first(), g)
    }
}

/// The glyph with encoding `enc`, if one is there.
pub open spec fn glyphs_find(s: Seq<GlyphV>, enc: u32) -> Option<GlyphV>
    decreases s.len(),
{
    if s.len() == 0 {
        None
    } else if s[0].encoding == enc {
        Some(s[0])
    } else {
        glyphs_find(s.drop_first(), enc)
    }
}

/// A collection without the encoding holds no glyph under it.
pub proof fn lemma_glyphs_find_none(s: Seq<GlyphV>, enc: u32)
    requires
        forall|i: int| 0 <= i < s.len() ==> s[i].encoding != enc,
    ensures
        glyphs_find(s, enc) is None,
    decreases s.len(),
{
    if s.len() > 0 {
        let t = s.drop_first();
        assert(forall|i: int| 0 <= i < t.len() ==> t[i] == s[i + 1]);
        lemma_glyphs_find_none(t, enc);
    }
}

/// What keyed insertion does to a sorted collection: order and
/// uniqueness are kept, the length grows exactly when the encoding was
/// new, every member was there before or is the inserted glyph, the
/// inserted glyph is a member, and every glyph under another encoding
/// stays a member.
pub proof fn lemma_glyphs_insert_props(s: Seq<GlyphV>, g: GlyphV)
    requires
        glyphs_sorted(s),
    ensures
        glyphs_sorted(glyphs_insert(s, g)),
        glyphs_find(s, g.encoding) is Some ==> glyphs_insert(s, g).len() == s.len(),
        glyphs_find(s, g.encoding) is None ==> glyphs_insert(s, g).len() == s.len() + 1,
        forall|i: int|
            0 <= i < glyphs_insert(s, g).len() ==> glyphs_insert(s, g)[i] == g || s.contains(
                glyphs_insert(s, g)[i],
            ),
        glyphs_insert(s, g).contains(g),
        forall|i: int|
            0 <= i < s.len() && (#[trigger] s[i]).encoding != g.encoding ==> glyphs_insert(
                s,
                g,
            ).contains(s[i]),
    decreases s.len(),
{
    let r = glyphs_insert(s, g);
    if s.len() == 0 {
        assert(r[0] == g);
    } else if g.encoding < s[0].encoding {
        assert forall|i: int| 0 <= i < s.len() implies s[i].encoding != g.encoding by {
            if i > 0 {
                assert(s[0].encoding < s[i].encoding);
            }
        }
        lemma_glyphs_find_none(s, g.encoding);
        assert forall|i: int| 0 <= i < r.len() implies r[i] == g || s.contains(r[i]) by {
            if i >= 1 {
                assert(r[i] == s[i - 1]);
            }
        }
        assert(r[0] == g);
        assert forall|i: int| 0 <= i < s.len() && (#[trigger] s[i]).encoding != g.encoding
            implies r.contains(s[i]) by {
            assert(r[i + 1] == s[i]);
        }
    } else if g.encoding == s[0].encoding {
        assert forall|i: int| 0 <= i < r.len() implies r[i] == g || s.contains(r[i]) by {
            if i >= 1 {
                assert(r[i] == s[i]);
            }
        }
        assert(r[0] == g);
        assert forall|i: int| 0 <= i < s.len() && (#[trigger] s[i]).encoding != g.encoding
            implies r.contains(s[i]) by {
            assert(i >= 1);
            assert(r[i] == s[i]);
        }
    } else {
        let t = s.drop_first();
        assert(glyphs_sorted(t)) by {
            assert(forall|i: int, j: int|
                0 <= i < j < t.len() ==> t[i] == s[i + 1] && t[j] == s[j + 1]);
        }
        lemma_glyphs_insert_props(t, g);
        let rt = glyphs_insert(t, g);
        assert(glyphs_find(s, g.encoding) == glyphs_find(t, g.encoding));
        assert(r == seq![s[0]] + rt);
        assert forall|i: int, j: int| 0 <= i < j < r.len() implies r[i].encoding
            < r[j].encoding by {
            if i == 0 {
                assert(r[j] == rt[j - 1]);
                assert(rt[j - 1] == g || t.contains(rt[j - 1]));
                if t.contains(rt[j - 1]) {
                    let w = choose|w: int| 0 <= w < t.len() && t[w] == rt[j - 1];
                    assert(t[w] == s[w + 1]);
                    assert(s[0].encoding < s[w + 1].encoding);
                }
            } else {
                assert(r[i] == rt[i - 1] && r[j] == rt[j - 1]);
            }
        }
        assert forall|i: int| 0 <= i < r.len() implies r[i] == g || s.contains(r[i]) by {
            if i == 0 {
                assert(r[0] == s[0]);
                assert(s.contains(s[0]));
            } else {
                assert(r[i] == rt[i - 1]);
                if t.contains(rt[i - 1]) {
                    let w = choose|w: int| 0 <= w < t.len() && t[w] == rt[i - 1];
                    assert(t[w] == s[w + 1]);
                    assert(s.contains(s[w + 1]));
                }
            }
        }
        assert(r.contains(g)) by {
            let w = choose|w: int| 0 <= w < rt.len() && rt[w] == g;
            assert(r[w + 1] == g);
        }
        assert forall|i: int| 0 <= i < s.len() && (#[trigger] s[i]).encoding != g.encoding
            implies r.contains(s[i]) by {
            if i == 0 {
                assert(r[0] == s[0]);
            } else {
                assert(t[i - 1] == s[i]);
                assert(rt.contains(t[i - 1]));
                let w = choose|w: int| 0 <= w < rt.len() && rt[w] == s[i];
                assert(r[w + 1] == s[i]);
            }
        }
    }
}

/// The set of encodings keyed in a glyph collection.
pub open spec fn glyph_encodings(s: Seq<GlyphV>) -> Set<u32> {
    Set::new(|e: u32| exists|i: int| 0 <= i < s.len() && (#[trigger] s[i]).encoding == e)
}

/// Keyed insertion adds exactly the inserted glyph's encoding to the
/// collection's key set.
pub proof fn lemma_glyphs_insert_encodings(s: Seq<GlyphV>, g: GlyphV)
    requires
        glyphs_sorted(s),
    ensures
        glyph_encodings(glyphs_insert(s, g)) == glyph_encodings(s).insert(g.encoding),
{
    lemma_glyphs_insert_props(s, g);
    let r = glyphs_insert(s, g);
    assert forall|e: u32| glyph_encodings(r).contains(e) implies glyph_encodings(s).insert(
        g.encoding,
    ).contains(e) by {
        let i = choose|i: int| 0 <= i < r.len() && (#[trigger] r[i]).encoding == e;
        if r[i] != g {
            let w = choose|w: int| 0 <= w < s.len() && s[w] == r[i];
            assert(s[w].encoding == e);
        }
    }
    assert forall|e: u32| glyph_encodings(s).insert(g.encoding).contains(e) implies glyph_encodings(
        r,
    ).contains(e) by {
        if e == g.encoding {
            let w = choose|w: int| 0 <= w < r.len() && r[w] == g;
            assert(r[w].encoding == e);
        } else {
            let i = choose|i: int| 0 <= i < s.len() && (#[trigger] s[i]).encoding == e;
            assert(r.contains(s[i]));
            let w = choose|w: int| 0 <= w < r.len() && r[w] == s[i];
            assert(r[w].encoding == e);
        }
    }
    assert(glyph_encodings(r) =~= glyph_encodings(s).insert(g.encoding));
}

/// A sorted collection holds exactly one glyph per encoding it keys, so
/// its length is the number of its encodings.
pub proof fn lemma_glyph_encodings_card(s: Seq<GlyphV>)
    requires
        glyphs_sorted(s),
    ensures
        glyph_encodings(s).finite(),
        glyph_encodings(s).len() == s.len(),
{
    let m = s.map_values(|g: GlyphV| g.encoding);
    assert forall|i: int, j: int|
        0 <= i < m.len() && 0 <= j < m.len() && i != j implies m[i] != m[j] by {
        assert(m[i] == s[i].encoding && m[j] == s[j].encoding);
    }
    m.unique_seq_to_set();
    vstd::seq_lib::seq_to_set_is_finite(m);
    assert forall|e: u32| glyph_encodings(s).contains(e) implies m.to_set().contains(e) by {
        let i = choose|i: int| 0 <= i < s.len() && (#[trigger] s[i]).encoding == e;
        assert(m[i] == e);
        assert(m.contains(e));
    }
    assert forall|e: u32| m.to_set().contains(e) implies glyph_encodings(s).contains(e) by {
        let i = choose|i: int| 0 <= i < m.len() && m[i] == e;
        assert(s[i].encoding == e);
    }
    assert(glyph_encodings(s) =~= m.to_set());
}

/// Keyed insertion is last-write-wins: the inserted glyph is found under
/// its own encoding, and every other encoding keeps the glyph it had.
pub proof fn lemma_glyphs_insert_find(s: Seq<GlyphV>, g: GlyphV, e: u32)
    requires
        glyphs_sorted(s),
    ensures
        glyphs_find(glyphs_insert(s, g), g.encoding) == Some(g),
        e != g.encoding ==> glyphs_find(glyphs_insert(s, g), e) == glyphs_find(s, e),
    decreases s.len(),
{
    let r = glyphs_insert(s, g);
    if s.len() == 0 {
        assert(r.drop_first() =~= Seq::<GlyphV>::empty());
    } else if g.encoding < s[0].encoding {
        assert(r.drop_first() =~= s);
    } else if g.encoding == s[0].encoding {
        assert(r.drop_first() =~= s.drop_first());
    } else {
        let t = s.drop_first();
        assert(glyphs_sorted(t)) by {
            assert(forall|i: int, j: int|
                0 <= i < j < t.len() ==> t[i] == s[i + 1] && t[j] == s[j + 1]);
        }
        lemma_glyphs_insert_find(t, g, e);
        assert(r.drop_first() =~= glyphs_insert(t, g));
        assert(r[0] == s[0]);
    }
    assert(glyphs_find(r, g.encoding) =~~= Some(g));
    if e != g.encoding {
        assert(glyphs_find(r, e) =~~= glyphs_find(s, e));
    }
}

proof fn lemma_glyphs_insert_skip(s: Seq<GlyphV>, g: GlyphV, i: int)
    requires
        0 <= i <= s.len(),
        forall|j: int| 0 <= j < i ==> s[j].encoding < g.encoding,
    ensures
        glyphs_insert(s, g) == s.take(i) + glyphs_insert(s.skip(i), g),
    decreases i,
{
    if i == 0 {
        assert(s.skip(0) =~= s);
        assert(s.take(0) + glyphs_insert(s, g) =~= glyphs_insert(s, g));
    } else {
        lemma_glyphs_insert_skip(s.drop_first(), g, i - 1);
        assert(s.drop_first().take(i - 1) =~= s.take(i).drop_first());
        assert(s.drop_first().skip(i - 1) =~= s.skip(i));
        assert(glyphs_insert(s, g) == seq![s[0]] + glyphs_insert(s.drop_first(), g));
        assert(seq![s[0]] + (s.drop_first().take(i - 1) + glyphs_insert(s.skip(i), g)) =~= s.take(
            i,
        ) + glyphs_insert(s.skip(i), g));
    }
}

proof fn lemma_glyphs_find_skip(s: Seq<GlyphV>, enc: u32, i: int)
    requires
        0 <= i <= s.len(),
        forall|j: int| 0 <= j < i ==> s[j].encoding != enc,
    ensures
        glyphs_find(s, enc) == glyphs_find(s.skip(i), enc),
    decreases i,
{
    if i == 0 {
        assert(s.skip(0) =~= s);
    } else {
        lemma_glyphs_find_skip(s.drop_first(), enc, i - 1);
        assert(s.drop_first().skip(i - 1) =~= s.skip(i));
    }
}

/// Puts `g` where its encoding belongs, replacing any glyph that already
/// holds that encoding.
pub(crate) fn glyphs_put(glyphs: &mut Vec<Glyph>, g: Glyph)
    ensures
        final(glyphs)@.map_values(|x: Glyph| x@) == glyphs_insert(
            old(glyphs)@.map_values(|x: Glyph| x@),
            g@,
        ),
{
    let ghost s = glyphs@.map_values(|x: Glyph| x@);
    let mut i: usize = 0;
    while i < glyphs.len() && glyphs[i].encoding < g.encoding
        invariant
            0 <= i <= glyphs@.len(),
            s == glyphs@.map_values(|x: Glyph| x@),
            forall|j: int| 0 <= j < i ==> s[j].encoding < g@.encoding,
        decreases glyphs@.len() - i,
    {
        proof {
            assert(s[i as int] == glyphs@[i as int]@);
        }
        i = i + 1;
    }
    proof {
        lemma_glyphs_insert_skip(s, g@, i as int);
        if i < s.len() {
            assert(s[i as int] == glyphs@[i as int]@);
        }
    }
    if i == glyphs.len() {
        glyphs.push(g);
        proof {
            assert(s.skip(i as int) =~= Seq::<GlyphV>::empty());
            assert(final(glyphs)@.map_values(|x: Glyph| x@) =~= s.take(i as int)
                + glyphs_insert(s.skip(i as int), g@));
        }
    } else if glyphs[i].encoding == g.encoding {
        let ghost gv = g@;
        glyphs[i] = g;
        proof {
            assert(s.skip(i as int).drop_first() =~= s.skip(i + 1));
            assert(final(glyphs)@.map_values(|x: Glyph| x@) =~= s.take(i as int) + (seq![gv]
                + s.skip(i + 1)));
        }
    } else {
        let ghost gv = g@;
        glyphs.insert(i, g);
        proof {
            assert(final(glyphs)@.map_values(|x: Glyph| x@) =~= s.take(i as int) + (seq![gv]
                + s.skip(i as int)));
        }
    }
}

/// A numeric code or a character, either of which keys a glyph.
pub trait GlyphIdx {
    spec fn spec_encoding(self) -> u32;

    fn encoding(self) -> (r: u32)
        ensures
            r == self.spec_encoding(),
    ;
}

impl GlyphIdx for u32 {
    open spec fn spec_encoding(self) -> u32 {
        self
    }

    fn encoding(self) -> (r: u32) {
        self
    }
}

impl GlyphIdx for char {
    open spec fn spec_encoding(self) -> u32 {
        self as u32
    }

    fn encoding(self) -> (r: u32) {
        self as u32
    }
}

/// A parsed font: metadata, default metrics, properties, and the glyphs
/// keyed by their encoding.
#[derive(Debug)]
pub struct Font {
    pub(crate) version: Option<i32>,
    pub(crate) name: String,
    pub(crate) bbox: BoundingBox,
    pub(crate) size: Size,
    pub(crate) properties: Vec<(String, Value)>,
    pub(crate) glyphs: Vec<Glyph>,
}

/// The mathematical shadow of a [`Font`]: the properties as a mapping,
/// the glyphs in their encoding order.
pub struct FontV {
    pub version: Option<i32>,
    pub name: Seq<char>,
    pub bbox: BoundingBox,
    pub size: Size,
    pub properties: Map<Seq<char>, ValueV>,
    pub glyphs: Seq<GlyphV>,
}

impl View for Font {
    type V = FontV;

    open(crate) spec fn view(&self) -> FontV {
        FontV {
            version: self.version,
            name: self.name@,
            bbox: self.bbox,
            size: self.size,
            properties: props_map(self.properties@),
            glyphs: self.glyphs@.map_values(|g: Glyph| g@),
        }
    }
}

impl Font {
    /// The content version of the font, if one was declared.
    pub fn version(&self) -> (r: Option<i32>)
        ensures
            r == self@.version,
    {
        self.version
    }

    /// The name of the font.
    pub fn name(&self) -> (r: &str)
        ensures
            r@ == self@.name,
    {
        self.name.as_str()
    }

    /// The default bounding box for glyphs.
    pub fn bounding_box(&self) -> (r: BoundingBox)
        ensures
            r == self@.bbox,
    {
        self.bbox
    }

    /// The size of the font.
    pub fn size(&self) -> (r: Size)
        ensures
            r == self@.size,
    {
        self.size
    }

    /// The property stored under `key`, if any; a property declared twice
    /// keeps its last value.
    pub fn property<'a>(&'a self, key: &str) -> (r: Option<&'a Value>)
        ensures
            match r {
                Some(v) => self@.properties.contains_key(key@) && v@ == self@.properties[key@],
                None => !self@.properties.contains_key(key@),
            },
    {
        let mut i: usize = self.properties.len();
        while i > 0
            invariant
                i <= self.properties@.len(),
                forall|l: int| i <= l < self.properties@.len() ==> self.properties@[l].0@ != key@,
            decreases i,
        {
            i = i - 1;
            if str_eq(self.properties[i].0.as_str(), key) {
                proof {
                    lemma_props_map_found(self.properties@, key@, i as int);
                }
                return Some(&self.properties[i].1);
            }
        }
        proof {
            lemma_props_map_absent(self.properties@, key@);
        }
        None
    }

    /// All glyphs of the font, in ascending encoding order.
    pub fn glyphs(&self) -> (r: &Vec<Glyph>)
        ensures
            r@.map_values(|g: Glyph| g@) == self@.glyphs,
    {
        &self.glyphs
    }

    /// The glyph keyed by this character or code, if the font holds one.
    pub fn glyph<'a, I: GlyphIdx>(&'a self, ch: I) -> (r: Option<&'a Glyph>)
        ensures
            match r {
                Some(g) => glyphs_find(self@.glyphs, ch.spec_encoding()) == Some(g@),
                None => glyphs_find(self@.glyphs, ch.spec_encoding()) is None,
            },
    {
        let enc = ch.encoding();
        let ghost s = self@.glyphs;
        let mut i: usize = 0;
        while i < self.glyphs.len()
            invariant
                0 <= i <= self.glyphs@.len(),
                s == self.glyphs@.map_values(|g: Glyph| g@),
                enc == ch.spec_encoding(),
                forall|j: int| 0 <= j < i ==> s[j].encoding != enc,
            decreases self.glyphs@.len() - i,
        {
            proof {
                assert(s[i as int] == self.glyphs@[i as int]@);
            }
            if self.glyphs[i].encoding == enc {
                proof {
                    lemma_glyphs_find_skip(s, enc, i as int);
                    assert(s.skip(i as int)[0] == s[i as int]);
                }
                return Some(&self.glyphs[i]);
            }
            i = i + 1;
        }
        proof {
            lemma_glyphs_find_skip(s, enc, s.len() as int);
            assert(s.skip(s.len() as int) =~= Seq::<GlyphV>::empty());
        }
        None
    }
}

} // verus!
