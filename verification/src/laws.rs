//! The laws of the library, stated and proved over the same spec
//! functions that the contracts of [`crate::Token::parse_line`] and
//! [`crate::Font::read`] use.

use vstd::prelude::*;

use crate::font::{glyph_encodings, glyphs_sorted, lemma_glyph_encodings_card};
use crate::reader::{lemma_step_inv, run_inv, spec_read, spec_run};
use crate::strutil::{
    all_digits, dec_i32_of, dec_u32_of, dec_usize_of, digit_val, digits_val, fields_of,
    is_digit_char, is_number_text, is_ws_char, lemma_split_ws_len, lemma_trim_end_take, split_ws,
    trim_end_ws, unsigned_body,
};
use crate::tokens::{comment_text, dir_of, spec_parse_line, ErrorV, TokenV, WritingDirection};

verus! {

/// A line of nothing but whitespace yields no token, never an error.
pub proof fn lemma_blank_line_skipped(line: Seq<char>)
    requires
        forall|i: int| 0 <= i < line.len() ==> is_ws_char(line[i]),
    ensures
        spec_parse_line(line) == Ok::<Option<TokenV>, ErrorV>(None),
{
    lemma_trim_end_take(line, 0);
    assert(line.take(0) =~= Seq::<char>::empty());
}

/// Every state that a run reaches satisfies the parse invariant.
pub proof fn lemma_run_inv_holds(lines: Seq<Seq<char>>)
    requires
        spec_run(lines) is Ok,
    ensures
        run_inv(spec_run(lines)->Ok_0.0, spec_run(lines)->Ok_0.1),
    decreases lines.len(),
{
    if lines.len() == 0 {
        assert(spec_run(lines)->Ok_0.1.seen =~= glyph_encodings(spec_run(lines)->Ok_0.1.glyphs));
    } else {
        lemma_run_inv_holds(lines.drop_last());
        let (st, acc) = spec_run(lines.drop_last())->Ok_0;
        lemma_step_inv(st, acc, lines.last());
    }
}

/// A document whose run closes the font section yields a font whose
/// glyph encodings are strictly ascending — so pairwise unique, a later
/// glyph under an already-declared encoding having replaced the earlier
/// one — whose every glyph stores exactly the rows its own box declares,
/// and whose glyph count is both the number of distinct encodings that
/// the closed glyph sections declared (`acc.seen`) and the count the
/// `CHARS` keyword declared, less one for each replacement.
pub proof fn lemma_font_shape(lines: Seq<Seq<char>>)
    requires
        spec_run(lines) is Ok,
        spec_run(lines)->Ok_0.0 is Final,
        spec_read(lines) is Ok,
    ensures
        ({
            let font = spec_read(lines)->Ok_0;
            let acc = spec_run(lines)->Ok_0.1;
            &&& glyphs_sorted(font.glyphs)
            &&& forall|i: int|
                0 <= i < font.glyphs.len() ==> (#[trigger] font.glyphs[i]).bitmap.len()
                    == font.glyphs[i].bbox.height
            &&& acc.declared == Some(font.glyphs.len() + acc.replaced)
            &&& acc.replaced == 0 ==> acc.declared == Some(font.glyphs.len() as int)
            &&& acc.seen == glyph_encodings(font.glyphs)
            &&& acc.seen.finite()
            &&& font.glyphs.len() == acc.seen.len()
        }),
{
    lemma_run_inv_holds(lines);
    lemma_glyph_encodings_card(spec_run(lines)->Ok_0.1.glyphs);
}

/// A whitespace-free, nonempty field, as the tokenizer produces them.
pub open spec fn field_ok(f: Seq<char>) -> bool {
    f.len() > 0 && forall|i: int| 0 <= i < f.len() ==> !is_ws_char(f[i])
}

/// A number argument in canonical shape: number syntax, no whitespace.
pub open spec fn number_field_ok(f: Seq<char>) -> bool {
    is_number_text(f) && forall|i: int| 0 <= i < f.len() ==> !is_ws_char(f[i])
}

/// A comment text that a line can carry and give back: it does not end
/// in whitespace, which trimming the line would drop.
pub open spec fn comment_ok(text: Seq<char>) -> bool {
    text.len() > 0 ==> !is_ws_char(text.last())
}

/// Fields joined with a single space between each pair.
pub open spec fn joinsp(fs: Seq<Seq<char>>) -> Seq<char>
    decreases fs.len(),
{
    if fs.len() == 0 {
        Seq::<char>::empty()
    } else if fs.len() == 1 {
        fs[0]
    } else {
        joinsp(fs.drop_last()) + seq![' '] + fs.last()
    }
}

/// The character of one decimal digit.
pub open spec fn digit_char(d: int) -> char {
    if d == 0 {
        '0'
    } else if d == 1 {
        '1'
    } else if d == 2 {
        '2'
    } else if d == 3 {
        '3'
    } else if d == 4 {
        '4'
    } else if d == 5 {
        '5'
    } else if d == 6 {
        '6'
    } else if d == 7 {
        '7'
    } else if d == 8 {
        '8'
    } else {
        '9'
    }
}

/// The decimal digits of a positive value, most significant first;
/// empty for zero and below.
pub open spec fn dec_digits(n: int) -> Seq<char>
    decreases n,
{
    if n <= 0 {
        Seq::<char>::empty()
    } else {
        dec_digits(n / 10).push(digit_char(n % 10))
    }
}

/// The canonical decimal text of a nonnegative value.
pub open spec fn dec_str_u(n: int) -> Seq<char> {
    if n == 0 {
        seq!['0']
    } else {
        dec_digits(n)
    }
}

/// The canonical decimal text of a signed value.
pub open spec fn dec_str_i(n: int) -> Seq<char> {
    if n < 0 {
        seq!['-'] + dec_str_u(-n)
    } else {
        dec_str_u(n)
    }
}

/// The canonical text of a writing direction.
pub open spec fn dir_str(d: WritingDirection) -> Seq<char> {
    match d {
        WritingDirection::Horizontal => seq!['0'],
        WritingDirection::Vertical => seq!['1'],
        WritingDirection::Both => seq!['2'],
    }
}

/// A token's canonical arguments, formatted back into one line.
pub open spec fn format_token(t: TokenV) -> Seq<char> {
    match t {
        TokenV::StartFont { ver } => joinsp(seq!["STARTFONT"@, ver]),
        TokenV::Comment { comment } => if comment.len() == 0 {
            "COMMENT"@
        } else {
            "COMMENT"@ + seq![' '] + comment
        },
        TokenV::ContentVersion { ver } => joinsp(seq!["CONTENTVERSION"@, dec_str_i(ver as int)]),
        TokenV::Font { name } => joinsp(seq!["FONT"@, name]),
        TokenV::Size { pt, xres, yres } => joinsp(
            seq!["SIZE"@, dec_str_u(pt as int), dec_str_u(xres as int), dec_str_u(yres as int)],
        ),
        TokenV::FontBoundingBox { fbbx, fbby, xoff, yoff } => joinsp(
            seq![
                "FONTBOUNDINGBOX"@,
                dec_str_u(fbbx as int),
                dec_str_u(fbby as int),
                dec_str_i(xoff as int),
                dec_str_i(yoff as int),
            ],
        ),
        TokenV::MetricsSet { dir } => joinsp(seq!["METRICSSET"@, dir_str(dir)]),
        TokenV::SWidth { swx0, swy0 } => joinsp(seq!["SWIDTH"@, swx0, swy0]),
        TokenV::DWidth { dwx0, dwy0 } => joinsp(seq!["DWIDTH"@, dwx0, dwy0]),
        TokenV::SWidthVertical { swx1, swy1 } => joinsp(seq!["SWIDTH1"@, swx1, swy1]),
        TokenV::DWidthVertical { dwx1, dwy1 } => joinsp(seq!["DWIDTH1"@, dwx1, dwy1]),
        TokenV::VVector { xoff, yoff } => joinsp(seq!["VVECTOR"@, xoff, yoff]),
        TokenV::StartProperties { n } => joinsp(seq!["STARTPROPERTIES"@, dec_str_u(n as int)]),
        TokenV::EndProperties => "ENDPROPERTIES"@,
        TokenV::Chars { nglyphs } => joinsp(seq!["CHARS"@, dec_str_u(nglyphs as int)]),
        TokenV::StartChar { name } => joinsp(seq!["STARTCHAR"@, name]),
        TokenV::Encoding { enc } => joinsp(seq!["ENCODING"@, dec_str_u(enc as int)]),
        TokenV::BoundingBox { bbw, bbh, bbxoff, bbyoff } => joinsp(
            seq![
                "BBX"@,
                dec_str_u(bbw as int),
                dec_str_u(bbh as int),
                dec_str_i(bbxoff as int),
                dec_str_i(bbyoff as int),
            ],
        ),
        TokenV::Bitmap => "BITMAP"@,
        TokenV::EndChar => "ENDCHAR"@,
        TokenV::EndFont => "ENDFONT"@,
    }
}

/// A token whose text arguments are in the canonical shape that the
/// tokenizer itself produces: fields without whitespace, number texts
/// for the widths, and a comment that does not end in whitespace.
pub open spec fn valid_token(t: TokenV) -> bool {
    match t {
        TokenV::StartFont { ver } => field_ok(ver),
        TokenV::Comment { comment } => comment_ok(comment),
        TokenV::Font { name } => field_ok(name),
        TokenV::StartChar { name } => field_ok(name),
        TokenV::SWidth { swx0, swy0 } => number_field_ok(swx0) && number_field_ok(swy0),
        TokenV::DWidth { dwx0, dwy0 } => number_field_ok(dwx0) && number_field_ok(dwy0),
        TokenV::SWidthVertical { swx1, swy1 } => number_field_ok(swx1) && number_field_ok(swy1),
        TokenV::DWidthVertical { dwx1, dwy1 } => number_field_ok(dwx1) && number_field_ok(dwy1),
        TokenV::VVector { xoff, yoff } => number_field_ok(xoff) && number_field_ok(yoff),
        _ => true,
    }
}

/// Splitting a field free of whitespace gives the field alone.
proof fn lemma_split_ws_free(f: Seq<char>)
    requires
        forall|i: int| 0 <= i < f.len() ==> !is_ws_char(f[i]),
    ensures
        split_ws(f) == seq![f],
    decreases f.len(),
{
    if f.len() == 0 {
        assert(split_ws(f) =~~= seq![f]);
    } else {
        assert(forall|i: int| 0 <= i < f.drop_last().len() ==> f.drop_last()[i] == f[i]);
        lemma_split_ws_free(f.drop_last());
        assert(split_ws(f) =~~= seq![f.drop_last().push(f.last())]);
        assert(f.drop_last().push(f.last()) =~= f);
        assert(split_ws(f) =~~= seq![f]);
    }
}

/// Splitting around a space splits each side on its own.
proof fn lemma_split_concat(x: Seq<char>, y: Seq<char>)
    ensures
        split_ws(x + seq![' '] + y) == split_ws(x) + split_ws(y),
    decreases y.len(),
{
    if y.len() == 0 {
        assert(x + seq![' '] + y =~= x.push(' '));
        assert((x.push(' ')).drop_last() =~= x);
        assert(split_ws(x + seq![' '] + y) =~~= split_ws(x).push(Seq::<char>::empty()));
        assert(split_ws(x) + split_ws(y) =~~= split_ws(x).push(Seq::<char>::empty()));
    } else {
        let y0 = y.drop_last();
        lemma_split_concat(x, y0);
        let s = x + seq![' '] + y;
        assert(s.drop_last() =~= x + seq![' '] + y0);
        assert(s.last() == y.last());
        lemma_split_ws_len(y0);
        if is_ws_char(y.last()) {
            assert(split_ws(s) =~~= split_ws(x) + split_ws(y0).push(Seq::<char>::empty()));
        } else {
            let r = split_ws(x) + split_ws(y0);
            assert(r.last() == split_ws(y0).last());
            assert(split_ws(s) == r.update(r.len() - 1, r.last().push(y.last())));
            assert(split_ws(y) == split_ws(y0).update(
                split_ws(y0).len() - 1,
                split_ws(y0).last().push(y.last()),
            ));
            assert(r.update(r.len() - 1, r.last().push(y.last())) =~= split_ws(x) + split_ws(
                y0,
            ).update(split_ws(y0).len() - 1, split_ws(y0).last().push(y.last())));
        }
    }
}

/// A sequence that does not end in whitespace trims to itself.
proof fn lemma_trim_id(x: Seq<char>)
    requires
        x.len() > 0 ==> !is_ws_char(x.last()),
    ensures
        trim_end_ws(x) == x,
{
}

/// The joined fields end with the last field's last character.
proof fn lemma_joinsp_last(fs: Seq<Seq<char>>)
    requires
        fs.len() >= 1,
        fs.last().len() > 0,
    ensures
        joinsp(fs).len() > 0,
        joinsp(fs).last() == fs.last().last(),
{
    if fs.len() > 1 {
        assert(joinsp(fs) == joinsp(fs.drop_last()) + seq![' '] + fs.last());
    }
}

/// Joining fields of canonical shape and splitting the line gives the
/// fields back.
proof fn lemma_fields_of_join(fs: Seq<Seq<char>>)
    requires
        fs.len() >= 1,
        forall|k: int| 0 <= k < fs.len() ==> field_ok(#[trigger] fs[k]),
    ensures
        fields_of(joinsp(fs)) == fs,
        trim_end_ws(joinsp(fs)) == joinsp(fs),
        joinsp(fs).len() > 0,
    decreases fs.len(),
{
    assert(field_ok(fs.last()));
    lemma_joinsp_last(fs);
    lemma_trim_id(joinsp(fs));
    if fs.len() == 1 {
        lemma_split_ws_free(fs[0]);
        assert(split_ws(joinsp(fs)) =~~= fs);
    } else {
        let fs0 = fs.drop_last();
        assert(forall|k: int| 0 <= k < fs0.len() ==> fs0[k] == fs[k]);
        lemma_fields_of_join(fs0);
        lemma_split_concat(joinsp(fs0), fs.last());
        lemma_split_ws_free(fs.last());
        assert(split_ws(joinsp(fs)) == fs0 + seq![fs.last()]);
        assert(fs0 + seq![fs.last()] =~= fs);
    }
}

/// The decimal digits of a positive value: all digits, and their value
/// is the value.
proof fn lemma_dec_digits(n: int)
    requires
        n >= 1,
    ensures
        all_digits(dec_digits(n)),
        dec_digits(n).len() >= 1,
        digits_val(dec_digits(n)) == n,
    decreases n,
{
    let d = n % 10;
    let c = digit_char(d);
    assert(is_digit_char(c) && digit_val(c) == d);
    if n < 10 {
        assert(n / 10 == 0);
        assert(dec_digits(n / 10) =~= Seq::<char>::empty());
        assert(dec_digits(n) =~= seq![c]);
        assert(seq![c].drop_last().len() == 0);
        assert(digits_val(seq![c].drop_last()) == 0);
        assert(digits_val(seq![c]) == digit_val(c));
    } else {
        lemma_dec_digits(n / 10);
        let a = dec_digits(n / 10);
        assert(a.push(c).drop_last() =~= a);
        assert(digits_val(a.push(c)) == digits_val(a) * 10 + d);
        assert(forall|i: int| 0 <= i < a.len() ==> a.push(c)[i] == a[i]);
    }
}

/// The canonical decimal text of a nonnegative value is a clean field
/// of digits denoting the value, and opens with neither sign.
proof fn lemma_dec_str_u(v: int)
    requires
        v >= 0,
    ensures
        field_ok(dec_str_u(v)),
        all_digits(dec_str_u(v)),
        digits_val(dec_str_u(v)) == v,
        dec_str_u(v)[0] != '+',
        dec_str_u(v)[0] != '-',
{
    if v == 0 {
        assert(seq!['0'].drop_last().len() == 0);
        assert(digits_val(seq!['0'].drop_last()) == 0);
        assert(digits_val(seq!['0']) == 0);
    } else {
        lemma_dec_digits(v);
    }
    let s = dec_str_u(v);
    assert(is_digit_char(s[0]));
    assert forall|i: int| 0 <= i < s.len() implies !is_ws_char(s[i]) by {
        assert(is_digit_char(s[i]));
    }
}

proof fn lemma_dec_u32_roundtrip(v: u32)
    ensures
        dec_u32_of(dec_str_u(v as int)) == Some(v),
{
    lemma_dec_str_u(v as int);
    let s = dec_str_u(v as int);
    assert(unsigned_body(s) == s);
}

proof fn lemma_dec_usize_roundtrip(v: usize)
    ensures
        dec_usize_of(dec_str_u(v as int)) == Some(v),
{
    lemma_dec_str_u(v as int);
    let s = dec_str_u(v as int);
    assert(unsigned_body(s) == s);
}

proof fn lemma_dec_i32_roundtrip(v: i32)
    ensures
        dec_i32_of(dec_str_i(v as int)) == Some(v),
        field_ok(dec_str_i(v as int)),
{
    if v < 0 {
        lemma_dec_str_u(-(v as int));
        let u = dec_str_u(-(v as int));
        let s = seq!['-'] + u;
        assert(s[0] == '-');
        assert(s.drop_first() =~= u);
        assert forall|i: int| 0 <= i < s.len() implies !is_ws_char(s[i]) by {
            if i >= 1 {
                assert(s[i] == u[i - 1]);
            }
        }
    } else {
        lemma_dec_str_u(v as int);
        let s = dec_str_i(v as int);
        assert(unsigned_body(s) == s);
    }
}

/// The keyword literals, spelled out once: their lengths, that none
/// holds whitespace, and that the same-length ones differ.
proof fn keyword_facts()
    ensures
        "STARTFONT"@.len() == 9,
        "COMMENT"@.len() == 7,
        "CONTENTVERSION"@.len() == 14,
        "FONT"@.len() == 4,
        "SIZE"@.len() == 4,
        "FONTBOUNDINGBOX"@.len() == 15,
        "METRICSSET"@.len() == 10,
        "SWIDTH"@.len() == 6,
        "DWIDTH"@.len() == 6,
        "SWIDTH1"@.len() == 7,
        "DWIDTH1"@.len() == 7,
        "VVECTOR"@.len() == 7,
        "STARTPROPERTIES"@.len() == 15,
        "ENDPROPERTIES"@.len() == 13,
        "CHARS"@.len() == 5,
        "STARTCHAR"@.len() == 9,
        "ENCODING"@.len() == 8,
        "BBX"@.len() == 3,
        "BITMAP"@.len() == 6,
        "ENDCHAR"@.len() == 7,
        "ENDFONT"@.len() == 7,
        field_ok("STARTFONT"@),
        field_ok("COMMENT"@),
        field_ok("CONTENTVERSION"@),
        field_ok("FONT"@),
        field_ok("SIZE"@),
        field_ok("FONTBOUNDINGBOX"@),
        field_ok("METRICSSET"@),
        field_ok("SWIDTH"@),
        field_ok("DWIDTH"@),
        field_ok("SWIDTH1"@),
        field_ok("DWIDTH1"@),
        field_ok("VVECTOR"@),
        field_ok("STARTPROPERTIES"@),
        field_ok("ENDPROPERTIES"@),
        field_ok("CHARS"@),
        field_ok("STARTCHAR"@),
        field_ok("ENCODING"@),
        field_ok("BBX"@),
        field_ok("BITMAP"@),
        field_ok("ENDCHAR"@),
        field_ok("ENDFONT"@),
        "STARTFONT"@ != "STARTCHAR"@,
        "COMMENT"@ != "SWIDTH1"@,
        "COMMENT"@ != "DWIDTH1"@,
        "COMMENT"@ != "VVECTOR"@,
        "COMMENT"@ != "ENDCHAR"@,
        "COMMENT"@ != "ENDFONT"@,
        "SWIDTH1"@ != "DWIDTH1"@,
        "SWIDTH1"@ != "VVECTOR"@,
        "SWIDTH1"@ != "ENDCHAR"@,
        "SWIDTH1"@ != "ENDFONT"@,
        "DWIDTH1"@ != "VVECTOR"@,
        "DWIDTH1"@ != "ENDCHAR"@,
        "DWIDTH1"@ != "ENDFONT"@,
        "VVECTOR"@ != "ENDCHAR"@,
        "VVECTOR"@ != "ENDFONT"@,
        "ENDCHAR"@ != "ENDFONT"@,
        "FONT"@ != "SIZE"@,
        "FONTBOUNDINGBOX"@ != "STARTPROPERTIES"@,
        "SWIDTH"@ != "DWIDTH"@,
        "SWIDTH"@ != "BITMAP"@,
        "DWIDTH"@ != "BITMAP"@,
{
    reveal_strlit("STARTFONT");
    reveal_strlit("COMMENT");
    reveal_strlit("CONTENTVERSION");
    reveal_strlit("FONT");
    reveal_strlit("SIZE");
    reveal_strlit("FONTBOUNDINGBOX");
    reveal_strlit("METRICSSET");
    reveal_strlit("SWIDTH");
    reveal_strlit("DWIDTH");
    reveal_strlit("SWIDTH1");
    reveal_strlit("DWIDTH1");
    reveal_strlit("VVECTOR");
    reveal_strlit("STARTPROPERTIES");
    reveal_strlit("ENDPROPERTIES");
    reveal_strlit("CHARS");
    reveal_strlit("STARTCHAR");
    reveal_strlit("ENCODING");
    reveal_strlit("BBX");
    reveal_strlit("BITMAP");
    reveal_strlit("ENDCHAR");
    reveal_strlit("ENDFONT");
    assert("STARTFONT"@[5] != "STARTCHAR"@[5]);
    assert("COMMENT"@[0] != "SWIDTH1"@[0]);
    assert("COMMENT"@[0] != "DWIDTH1"@[0]);
    assert("COMMENT"@[0] != "VVECTOR"@[0]);
    assert("COMMENT"@[0] != "ENDCHAR"@[0]);
    assert("COMMENT"@[0] != "ENDFONT"@[0]);
    assert("SWIDTH1"@[0] != "DWIDTH1"@[0]);
    assert("SWIDTH1"@[0] != "VVECTOR"@[0]);
    assert("SWIDTH1"@[0] != "ENDCHAR"@[0]);
    assert("SWIDTH1"@[0] != "ENDFONT"@[0]);
    assert("DWIDTH1"@[0] != "VVECTOR"@[0]);
    assert("DWIDTH1"@[0] != "ENDCHAR"@[0]);
    assert("DWIDTH1"@[0] != "ENDFONT"@[0]);
    assert("VVECTOR"@[0] != "ENDCHAR"@[0]);
    assert("VVECTOR"@[0] != "ENDFONT"@[0]);
    assert("ENDCHAR"@[3] != "ENDFONT"@[3]);
    assert("FONT"@[0] != "SIZE"@[0]);
    assert("FONTBOUNDINGBOX"@[0] != "STARTPROPERTIES"@[0]);
    assert("SWIDTH"@[0] != "DWIDTH"@[0]);
    assert("SWIDTH"@[0] != "BITMAP"@[0]);
    assert("DWIDTH"@[0] != "BITMAP"@[0]);
}

proof fn rt_endproperties()
    ensures
        spec_parse_line(format_token(TokenV::EndProperties)) == Ok::<Option<TokenV>, ErrorV>(
            Some(TokenV::EndProperties),
        ),
{
    keyword_facts();
    assert(field_ok("ENDPROPERTIES"@));
    lemma_fields_of_join(seq!["ENDPROPERTIES"@]);
}

proof fn rt_bitmap()
    ensures
        spec_parse_line(format_token(TokenV::Bitmap)) == Ok::<Option<TokenV>, ErrorV>(
            Some(TokenV::Bitmap),
        ),
{
    keyword_facts();
    assert(field_ok("BITMAP"@));
    lemma_fields_of_join(seq!["BITMAP"@]);
}

proof fn rt_endchar()
    ensures
        spec_parse_line(format_token(TokenV::EndChar)) == Ok::<Option<TokenV>, ErrorV>(
            Some(TokenV::EndChar),
        ),
{
    keyword_facts();
    assert(field_ok("ENDCHAR"@));
    lemma_fields_of_join(seq!["ENDCHAR"@]);
}

proof fn rt_endfont()
    ensures
        spec_parse_line(format_token(TokenV::EndFont)) == Ok::<Option<TokenV>, ErrorV>(
            Some(TokenV::EndFont),
        ),
{
    keyword_facts();
    assert(field_ok("ENDFONT"@));
    lemma_fields_of_join(seq!["ENDFONT"@]);
}

proof fn rt_startfont(ver: Seq<char>)
    requires
        field_ok(ver),
    ensures
        spec_parse_line(format_token(TokenV::StartFont { ver })) == Ok::<Option<TokenV>, ErrorV>(
            Some(TokenV::StartFont { ver }),
        ),
{
    keyword_facts();
    let fs = seq!["STARTFONT"@, ver];
    assert(field_ok(fs[0]));
    lemma_fields_of_join(fs);
}

proof fn rt_font(name: Seq<char>)
    requires
        field_ok(name),
    ensures
        spec_parse_line(format_token(TokenV::Font { name })) == Ok::<Option<TokenV>, ErrorV>(
            Some(TokenV::Font { name }),
        ),
{
    keyword_facts();
    let fs = seq!["FONT"@, name];
    assert(field_ok(fs[0]));
    lemma_fields_of_join(fs);
}

proof fn rt_startchar(name: Seq<char>)
    requires
        field_ok(name),
    ensures
        spec_parse_line(format_token(TokenV::StartChar { name })) == Ok::<Option<TokenV>, ErrorV>(
            Some(TokenV::StartChar { name }),
        ),
{
    keyword_facts();
    let fs = seq!["STARTCHAR"@, name];
    assert(field_ok(fs[0]));
    lemma_fields_of_join(fs);
}

proof fn rt_encoding(enc: u32)
    ensures
        spec_parse_line(format_token(TokenV::Encoding { enc })) == Ok::<Option<TokenV>, ErrorV>(
            Some(TokenV::Encoding { enc }),
        ),
{
    keyword_facts();
    lemma_dec_u32_roundtrip(enc);
    lemma_dec_str_u(enc as int);
    let fs = seq!["ENCODING"@, dec_str_u(enc as int)];
    assert(field_ok(fs[0]));
    lemma_fields_of_join(fs);
}

proof fn rt_startproperties(n: usize)
    ensures
        spec_parse_line(format_token(TokenV::StartProperties { n })) == Ok::<Option<TokenV>, ErrorV>(
            Some(TokenV::StartProperties { n }),
        ),
{
    keyword_facts();
    lemma_dec_usize_roundtrip(n);
    lemma_dec_str_u(n as int);
    let fs = seq!["STARTPROPERTIES"@, dec_str_u(n as int)];
    assert(field_ok(fs[0]));
    lemma_fields_of_join(fs);
}

proof fn rt_chars(nglyphs: usize)
    ensures
        spec_parse_line(format_token(TokenV::Chars { nglyphs })) == Ok::<Option<TokenV>, ErrorV>(
            Some(TokenV::Chars { nglyphs }),
        ),
{
    keyword_facts();
    lemma_dec_usize_roundtrip(nglyphs);
    lemma_dec_str_u(nglyphs as int);
    let fs = seq!["CHARS"@, dec_str_u(nglyphs as int)];
    assert(field_ok(fs[0]));
    lemma_fields_of_join(fs);
}

proof fn rt_contentversion(ver: i32)
    ensures
        spec_parse_line(format_token(TokenV::ContentVersion { ver })) == Ok::<Option<TokenV>, ErrorV>(
            Some(TokenV::ContentVersion { ver }),
        ),
{
    keyword_facts();
    lemma_dec_i32_roundtrip(ver);
    let fs = seq!["CONTENTVERSION"@, dec_str_i(ver as int)];
    assert(field_ok(fs[0]));
    lemma_fields_of_join(fs);
}

proof fn rt_metricsset(dir: WritingDirection)
    ensures
        spec_parse_line(format_token(TokenV::MetricsSet { dir })) == Ok::<Option<TokenV>, ErrorV>(
            Some(TokenV::MetricsSet { dir }),
        ),
{
    keyword_facts();
    let fs = seq!["METRICSSET"@, dir_str(dir)];
    assert(field_ok(fs[0]));
    assert(field_ok(fs[1]));
    lemma_fields_of_join(fs);
    assert(dir_of(dir_str(dir)) == Some(dir));
}

proof fn rt_size(pt: u32, xres: u32, yres: u32)
    ensures
        spec_parse_line(format_token(TokenV::Size { pt, xres, yres })) == Ok::<Option<TokenV>, ErrorV>(
            Some(TokenV::Size { pt, xres, yres }),
        ),
{
    keyword_facts();
    lemma_dec_u32_roundtrip(pt);
    lemma_dec_u32_roundtrip(xres);
    lemma_dec_u32_roundtrip(yres);
    lemma_dec_str_u(pt as int);
    lemma_dec_str_u(xres as int);
    lemma_dec_str_u(yres as int);
    let fs = seq!["SIZE"@, dec_str_u(pt as int), dec_str_u(xres as int), dec_str_u(yres as int)];
    assert(field_ok(fs[0]));
    lemma_fields_of_join(fs);
}

proof fn rt_fontboundingbox(fbbx: u32, fbby: u32, xoff: i32, yoff: i32)
    ensures
        spec_parse_line(format_token(TokenV::FontBoundingBox { fbbx, fbby, xoff, yoff })) == Ok::<Option<TokenV>, ErrorV>(
            Some(TokenV::FontBoundingBox { fbbx, fbby, xoff, yoff }),
        ),
{
    keyword_facts();
    lemma_dec_u32_roundtrip(fbbx);
    lemma_dec_u32_roundtrip(fbby);
    lemma_dec_i32_roundtrip(xoff);
    lemma_dec_i32_roundtrip(yoff);
    lemma_dec_str_u(fbbx as int);
    lemma_dec_str_u(fbby as int);
    let fs = seq![
        "FONTBOUNDINGBOX"@,
        dec_str_u(fbbx as int),
        dec_str_u(fbby as int),
        dec_str_i(xoff as int),
        dec_str_i(yoff as int),
    ];
    assert(field_ok(fs[0]));
    lemma_fields_of_join(fs);
}

proof fn rt_bbx(bbw: u32, bbh: u32, bbxoff: i32, bbyoff: i32)
    ensures
        spec_parse_line(format_token(TokenV::BoundingBox { bbw, bbh, bbxoff, bbyoff })) == Ok::<Option<TokenV>, ErrorV>(
            Some(TokenV::BoundingBox { bbw, bbh, bbxoff, bbyoff }),
        ),
{
    keyword_facts();
    lemma_dec_u32_roundtrip(bbw);
    lemma_dec_u32_roundtrip(bbh);
    lemma_dec_i32_roundtrip(bbxoff);
    lemma_dec_i32_roundtrip(bbyoff);
    lemma_dec_str_u(bbw as int);
    lemma_dec_str_u(bbh as int);
    let fs = seq![
        "BBX"@,
        dec_str_u(bbw as int),
        dec_str_u(bbh as int),
        dec_str_i(bbxoff as int),
        dec_str_i(bbyoff as int),
    ];
    assert(field_ok(fs[0]));
    lemma_fields_of_join(fs);
}

proof fn rt_swidth(swx0: Seq<char>, swy0: Seq<char>)
    requires
        number_field_ok(swx0),
        number_field_ok(swy0),
    ensures
        spec_parse_line(format_token(TokenV::SWidth { swx0, swy0 })) == Ok::<Option<TokenV>, ErrorV>(
            Some(TokenV::SWidth { swx0, swy0 }),
        ),
{
    keyword_facts();
    let fs = seq!["SWIDTH"@, swx0, swy0];
    assert(field_ok(fs[0]));
    assert(field_ok(fs[1]));
    assert(field_ok(fs[2]));
    lemma_fields_of_join(fs);
}

proof fn rt_dwidth(dwx0: Seq<char>, dwy0: Seq<char>)
    requires
        number_field_ok(dwx0),
        number_field_ok(dwy0),
    ensures
        spec_parse_line(format_token(TokenV::DWidth { dwx0, dwy0 })) == Ok::<Option<TokenV>, ErrorV>(
            Some(TokenV::DWidth { dwx0, dwy0 }),
        ),
{
    keyword_facts();
    let fs = seq!["DWIDTH"@, dwx0, dwy0];
    assert(field_ok(fs[0]));
    assert(field_ok(fs[1]));
    assert(field_ok(fs[2]));
    lemma_fields_of_join(fs);
}

proof fn rt_swidth1(swx1: Seq<char>, swy1: Seq<char>)
    requires
        number_field_ok(swx1),
        number_field_ok(swy1),
    ensures
        spec_parse_line(format_token(TokenV::SWidthVertical { swx1, swy1 })) == Ok::<Option<TokenV>, ErrorV>(
            Some(TokenV::SWidthVertical { swx1, swy1 }),
        ),
{
    keyword_facts();
    let fs = seq!["SWIDTH1"@, swx1, swy1];
    assert(field_ok(fs[0]));
    assert(field_ok(fs[1]));
    assert(field_ok(fs[2]));
    lemma_fields_of_join(fs);
}

proof fn rt_dwidth1(dwx1: Seq<char>, dwy1: Seq<char>)
    requires
        number_field_ok(dwx1),
        number_field_ok(dwy1),
    ensures
        spec_parse_line(format_token(TokenV::DWidthVertical { dwx1, dwy1 })) == Ok::<Option<TokenV>, ErrorV>(
            Some(TokenV::DWidthVertical { dwx1, dwy1 }),
        ),
{
    keyword_facts();
    let fs = seq!["DWIDTH1"@, dwx1, dwy1];
    assert(field_ok(fs[0]));
    assert(field_ok(fs[1]));
    assert(field_ok(fs[2]));
    lemma_fields_of_join(fs);
}

proof fn rt_vvector(xoff: Seq<char>, yoff: Seq<char>)
    requires
        number_field_ok(xoff),
        number_field_ok(yoff),
    ensures
        spec_parse_line(format_token(TokenV::VVector { xoff, yoff })) == Ok::<Option<TokenV>, ErrorV>(
            Some(TokenV::VVector { xoff, yoff }),
        ),
{
    keyword_facts();
    let fs = seq!["VVECTOR"@, xoff, yoff];
    assert(field_ok(fs[0]));
    assert(field_ok(fs[1]));
    assert(field_ok(fs[2]));
    lemma_fields_of_join(fs);
}

proof fn rt_comment(comment: Seq<char>)
    requires
        comment_ok(comment),
    ensures
        spec_parse_line(format_token(TokenV::Comment { comment })) == Ok::<
            Option<TokenV>,
            ErrorV,
        >(Some(TokenV::Comment { comment })),
{
    keyword_facts();
    let t = TokenV::Comment { comment };
    let line = format_token(t);
    if comment.len() == 0 {
        lemma_trim_id(line);
        lemma_split_ws_free("COMMENT"@);
        assert(fields_of(line) == seq!["COMMENT"@]);
        assert(comment_text(line) =~= comment);
    } else {
        assert(line.last() == comment.last());
        lemma_trim_id(line);
        lemma_split_concat("COMMENT"@, comment);
        lemma_split_ws_free("COMMENT"@);
        assert(split_ws(line) == seq!["COMMENT"@] + split_ws(comment));
        assert(split_ws(line)[0] == "COMMENT"@);
        assert(trim_end_ws(line).len() > 0);
        assert(comment_text(line) =~= comment);
    }
}

/// For every valid token, formatting its canonical arguments back into
/// a line and re-reading the line yields the token itself.
pub proof fn lemma_parse_line_round_trip(t: TokenV)
    requires
        valid_token(t),
    ensures
        spec_parse_line(format_token(t)) == Ok::<Option<TokenV>, ErrorV>(Some(t)),
{
    match t {
        TokenV::StartFont { ver } => {
            rt_startfont(ver);
            assert(t =~= TokenV::StartFont { ver });
        },
        TokenV::Comment { comment } => {
            rt_comment(comment);
            assert(t =~= TokenV::Comment { comment });
        },
        TokenV::ContentVersion { ver } => {
            rt_contentversion(ver);
            assert(t =~= TokenV::ContentVersion { ver });
        },
        TokenV::Font { name } => {
            rt_font(name);
            assert(t =~= TokenV::Font { name });
        },
        TokenV::Size { pt, xres, yres } => {
            rt_size(pt, xres, yres);
            assert(t =~= TokenV::Size { pt, xres, yres });
        },
        TokenV::FontBoundingBox { fbbx, fbby, xoff, yoff } => {
            rt_fontboundingbox(fbbx, fbby, xoff, yoff);
            assert(t =~= TokenV::FontBoundingBox { fbbx, fbby, xoff, yoff });
        },
        TokenV::MetricsSet { dir } => {
            rt_metricsset(dir);
            assert(t =~= TokenV::MetricsSet { dir });
        },
        TokenV::SWidth { swx0, swy0 } => {
            rt_swidth(swx0, swy0);
            assert(t =~= TokenV::SWidth { swx0, swy0 });
        },
        TokenV::DWidth { dwx0, dwy0 } => {
            rt_dwidth(dwx0, dwy0);
            assert(t =~= TokenV::DWidth { dwx0, dwy0 });
        },
        TokenV::SWidthVertical { swx1, swy1 } => {
            rt_swidth1(swx1, swy1);
            assert(t =~= TokenV::SWidthVertical { swx1, swy1 });
        },
        TokenV::DWidthVertical { dwx1, dwy1 } => {
            rt_dwidth1(dwx1, dwy1);
            assert(t =~= TokenV::DWidthVertical { dwx1, dwy1 });
        },
        TokenV::VVector { xoff, yoff } => {
            rt_vvector(xoff, yoff);
            assert(t =~= TokenV::VVector { xoff, yoff });
        },
        TokenV::StartProperties { n } => {
            rt_startproperties(n);
            assert(t =~= TokenV::StartProperties { n });
        },
        TokenV::EndProperties => {
            rt_endproperties();
            assert(t =~= TokenV::EndProperties);
        },
        TokenV::Chars { nglyphs } => {
            rt_chars(nglyphs);
            assert(t =~= TokenV::Chars { nglyphs });
        },
        TokenV::StartChar { name } => {
            rt_startchar(name);
            assert(t =~= TokenV::StartChar { name });
        },
        TokenV::Encoding { enc } => {
            rt_encoding(enc);
            assert(t =~= TokenV::Encoding { enc });
        },
        TokenV::BoundingBox { bbw, bbh, bbxoff, bbyoff } => {
            rt_bbx(bbw, bbh, bbxoff, bbyoff);
            assert(t =~= TokenV::BoundingBox { bbw, bbh, bbxoff, bbyoff });
        },
        TokenV::Bitmap => {
            rt_bitmap();
            assert(t =~= TokenV::Bitmap);
        },
        TokenV::EndChar => {
            rt_endchar();
            assert(t =~= TokenV::EndChar);
        },
        TokenV::EndFont => {
            rt_endfont();
            assert(t =~= TokenV::EndFont);
        },
    }
}

} // verus!
