//! The grammar of a scene description, and the parser that reads one.
//!
//! A description is a text of lines. Empty lines and lines that begin with
//! two slashes are skipped. Seven lines follow in a fixed order: the position
//! of the camera, its direction, the width and height of the image, the field
//! of view, the depth of the recursion with the number of samples for each
//! pixel, the greatest jitter of a sample, and the scales of colour and of
//! light. Every further line describes one object: the name of its colour,
//! the factor of its light, its material and its shape.

use vstd::prelude::*;
use crate::number::{
    is_number, lemma_short_decimal, parse_u16, parse_u32, whole_value, Number,
};
use crate::scene::{
    color_of, object_views, Color, Config, ConfigView, Material, MaterialView, Object, ObjectView,
    Plane, PlaneView, Ray, RayView, Shape, ShapeView, Sphere, SphereView, Vector3, Vector3View,
};
use crate::text::{chars_of, join, join_words, lemma_split_len, same_text, split, split_text, texts};

verus! {

/// Why a scene description was refused. Each variant but the last carries the
/// text at fault: the shape as it stands at the end of an object's line, or
/// the whole line.
#[derive(Debug)]
pub enum ConfigError {
    InvalidShape(String),
    InvalidObject(String),
    InvalidLine(String),
    NotEnoughLines,
}

/// An error, with the text at fault as a character sequence.
pub enum ConfigErrorView {
    InvalidShape(Seq<char>),
    InvalidObject(Seq<char>),
    InvalidLine(Seq<char>),
    NotEnoughLines,
}

impl View for ConfigError {
    type V = ConfigErrorView;

    open spec fn view(&self) -> ConfigErrorView {
        match self {
            ConfigError::InvalidShape(s) => ConfigErrorView::InvalidShape(s@),
            ConfigError::InvalidObject(s) => ConfigErrorView::InvalidObject(s@),
            ConfigError::InvalidLine(s) => ConfigErrorView::InvalidLine(s@),
            ConfigError::NotEnoughLines => ConfigErrorView::NotEnoughLines,
        }
    }
}

/// A line that begins with two slashes.
pub open spec fn is_comment(line: Seq<char>) -> bool {
    line.len() >= 2 && line[0] == '/' && line[1] == '/'
}

/// A line that the parser reads: neither empty nor a comment.
pub open spec fn is_content(line: Seq<char>) -> bool {
    line.len() > 0 && !is_comment(line)
}

/// Those of the given lines that the parser reads, in order.
pub open spec fn keep_content(lines: Seq<Seq<char>>) -> Seq<Seq<char>> {
    lines.filter(|l: Seq<char>| is_content(l))
}

/// The lines of a description that the parser reads, in order.
pub open spec fn content_lines(raw: Seq<char>) -> Seq<Seq<char>> {
    keep_content(split(raw, '\n'))
}

/// Whether a line holds exactly `n` numerals of real numbers, with single
/// spaces between them and nothing else.
pub open spec fn numbers_line(line: Seq<char>, n: int) -> bool {
    let t = split(line, ' ');
    t.len() == n && forall|i: int| 0 <= i < n ==> is_number(#[trigger] t[i])
}

/// The vector that a line of three numerals describes.
pub open spec fn vector_of(line: Seq<char>) -> Option<Vector3View> {
    if numbers_line(line, 3) {
        let t = split(line, ' ');
        Some(Vector3View { x: t[0], y: t[1], z: t[2] })
    } else {
        None
    }
}

/// The two whole numbers, each at most `max`, that a line describes.
pub open spec fn wholes_of(line: Seq<char>, max: nat) -> Option<(nat, nat)> {
    let t = split(line, ' ');
    if t.len() == 2 && whole_value(t[0], max) is Some && whole_value(t[1], max) is Some {
        Some((whole_value(t[0], max)->0, whole_value(t[1], max)->0))
    } else {
        None
    }
}

/// The material that the tokens of an object's line name from the third
/// token on, and the number of tokens that name it.
pub open spec fn material_of(t: Seq<Seq<char>>) -> Option<(MaterialView, int)> {
    if t.len() < 3 {
        None
    } else if t[2] == "mirror"@ {
        Some((MaterialView::Mirror, 1))
    } else if t[2] == "glass"@ {
        Some((MaterialView::Translucent("1.0"@), 1))
    } else if t[2] == "opaque"@ {
        Some((MaterialView::Translucent("0.0"@), 1))
    } else if t[2] == "translucent"@ && t.len() >= 4 && is_number(t[3]) {
        Some((MaterialView::Translucent(t[3]), 2))
    } else {
        None
    }
}

/// Those of the given tokens that are not empty, in order.
pub open spec fn words(parts: Seq<Seq<char>>) -> Seq<Seq<char>> {
    parts.filter(|p: Seq<char>| p.len() > 0)
}

/// Whether the words from index `from` up to `to` are all numerals.
pub open spec fn numerals(w: Seq<Seq<char>>, from: int, to: int) -> bool {
    forall|i: int| from <= i < to ==> is_number(#[trigger] w[i])
}

/// The shape that the last tokens of an object's line describe. Empty tokens
/// do not count. The first word names the kind; a sphere takes its centre and
/// its radius, a plane one of its points and its normal. Anything else is
/// refused with the tokens as they stood, joined by single spaces.
pub open spec fn shape_of(parts: Seq<Seq<char>>) -> Result<ShapeView, ConfigErrorView> {
    let w = words(parts);
    if w.len() == 5 && w[0] == "sphere"@ && numerals(w, 1, 5) {
        Ok(
            ShapeView::Sphere(
                SphereView { center: Vector3View { x: w[1], y: w[2], z: w[3] }, radius: w[4] },
            ),
        )
    } else if w.len() == 7 && w[0] == "plane"@ && numerals(w, 1, 7) {
        Ok(
            ShapeView::Plane(
                PlaneView {
                    point: Vector3View { x: w[1], y: w[2], z: w[3] },
                    norm: Vector3View { x: w[4], y: w[5], z: w[6] },
                },
            ),
        )
    } else {
        Err(ConfigErrorView::InvalidShape(join(parts, ' ')))
    }
}

/// The object that a line describes. The tokens of the line are what single
/// spaces delimit. A line whose colour, factor of light or material cannot
/// be read is refused whole; one whose shape cannot be read is refused with
/// the shape.
pub open spec fn object_of(line: Seq<char>) -> Result<ObjectView, ConfigErrorView> {
    let t = split(line, ' ');
    if color_of(t[0]) is None || t.len() < 2 || !is_number(t[1]) || material_of(t) is None {
        Err(ConfigErrorView::InvalidObject(line))
    } else {
        let (material, used) = material_of(t)->0;
        match shape_of(t.skip(2 + used)) {
            Ok(shape) => Ok(
                ObjectView { shape, color: color_of(t[0])->0, lum: t[1], material },
            ),
            Err(e) => Err(e),
        }
    }
}

/// The objects that the given lines describe, or the error of the first line
/// that describes none.
pub open spec fn objects_of(lines: Seq<Seq<char>>) -> Result<Seq<ObjectView>, ConfigErrorView>
    decreases lines.len(),
{
    if lines.len() == 0 {
        Ok(Seq::<ObjectView>::empty())
    } else {
        match objects_of(lines.drop_last()) {
            Err(e) => Err(e),
            Ok(before) => match object_of(lines.last()) {
                Ok(o) => Ok(before.push(o)),
                Err(e) => Err(e),
            },
        }
    }
}

/// What a scene description describes. The lines are read in order; the
/// first that is missing or malformed decides the error, where the two lines
/// of the camera are both looked for before either is read.
pub open spec fn config_of(raw: Seq<char>) -> Result<ConfigView, ConfigErrorView> {
    let l = content_lines(raw);
    if l.len() < 2 {
        Err(ConfigErrorView::NotEnoughLines)
    } else if vector_of(l[0]) is None {
        Err(ConfigErrorView::InvalidLine(l[0]))
    } else if vector_of(l[1]) is None {
        Err(ConfigErrorView::InvalidLine(l[1]))
    } else if l.len() < 3 {
        Err(ConfigErrorView::NotEnoughLines)
    } else if wholes_of(l[2], u32::MAX as nat) is None {
        Err(ConfigErrorView::InvalidLine(l[2]))
    } else if l.len() < 4 {
        Err(ConfigErrorView::NotEnoughLines)
    } else if !numbers_line(l[3], 1) {
        Err(ConfigErrorView::InvalidLine(l[3]))
    } else if l.len() < 5 {
        Err(ConfigErrorView::NotEnoughLines)
    } else if wholes_of(l[4], u16::MAX as nat) is None {
        Err(ConfigErrorView::InvalidLine(l[4]))
    } else if l.len() < 6 {
        Err(ConfigErrorView::NotEnoughLines)
    } else if !numbers_line(l[5], 1) {
        Err(ConfigErrorView::InvalidLine(l[5]))
    } else if l.len() < 7 {
        Err(ConfigErrorView::NotEnoughLines)
    } else if !numbers_line(l[6], 2) {
        Err(ConfigErrorView::InvalidLine(l[6]))
    } else {
        let size = wholes_of(l[2], u32::MAX as nat)->0;
        let limits = wholes_of(l[4], u16::MAX as nat)->0;
        match objects_of(l.skip(7)) {
            Err(e) => Err(e),
            Ok(objects) => Ok(
                ConfigView {
                    objects,
                    pov: RayView { pos: vector_of(l[0])->0, dir: vector_of(l[1])->0 },
                    width: size.0 as u32,
                    height: size.1 as u32,
                    fov: split(l[3], ' ')[0],
                    max_depth: limits.0 as u16,
                    num_tries: limits.1 as u16,
                    max_variation: split(l[5], ' ')[0],
                    col_scale: split(l[6], ' ')[0],
                    lum_scale: split(l[6], ' ')[1],
                },
            ),
        }
    }
}

/// Whether a line can stand at place `k` among the seven lines before the
/// objects.
pub open spec fn is_header_line(k: int, line: Seq<char>) -> bool {
    if k == 0 || k == 1 {
        vector_of(line) is Some
    } else if k == 2 {
        wholes_of(line, u32::MAX as nat) is Some
    } else if k == 4 {
        wholes_of(line, u16::MAX as nat) is Some
    } else if k == 6 {
        numbers_line(line, 2)
    } else {
        numbers_line(line, 1)
    }
}

/// A malformed line among the seven before the objects is refused as an
/// invalid line, and named: the first such line, where the lines before it
/// are in order and the description is not at its end before that.
pub proof fn lemma_malformed_line_is_invalid_line(raw: Seq<char>, k: int)
    requires
        0 <= k < 7,
        k < content_lines(raw).len(),
        content_lines(raw).len() >= 2,
        forall|j: int| 0 <= j < k ==> is_header_line(j, #[trigger] content_lines(raw)[j]),
        !is_header_line(k, content_lines(raw)[k]),
    ensures
        config_of(raw) == Err::<ConfigView, ConfigErrorView>(
            ConfigErrorView::InvalidLine(content_lines(raw)[k]),
        ),
{
    let l = content_lines(raw);
    if k > 0 {
        assert(is_header_line(0, l[0]));
    }
    if k > 1 {
        assert(is_header_line(1, l[1]));
    }
    if k > 2 {
        assert(is_header_line(2, l[2]));
    }
    if k > 3 {
        assert(is_header_line(3, l[3]));
    }
    if k > 4 {
        assert(is_header_line(4, l[4]));
    }
    if k > 5 {
        assert(is_header_line(5, l[5]));
    }
}

/// A shape with the wrong number of tokens for its kind is refused as an
/// invalid shape.
pub proof fn lemma_wrong_count_is_invalid_shape(parts: Seq<Seq<char>>)
    requires
        words(parts).len() > 0,
        (words(parts)[0] == "sphere"@ && words(parts).len() != 5) || (words(parts)[0] == "plane"@
            && words(parts).len() != 7),
    ensures
        shape_of(parts) == Err::<ShapeView, ConfigErrorView>(
            ConfigErrorView::InvalidShape(join(parts, ' ')),
        ),
{
    reveal_strlit("sphere");
    reveal_strlit("plane");
    assert("sphere"@.len() != "plane"@.len());
}

/// The line of an object whose colour, light and material are in order and
/// whose shape is not is refused as an invalid shape, never as an invalid
/// object or line.
pub proof fn lemma_bad_shape_is_told_apart(line: Seq<char>)
    requires
        color_of(split(line, ' ')[0]) is Some,
        split(line, ' ').len() >= 2,
        is_number(split(line, ' ')[1]),
        material_of(split(line, ' ')) is Some,
        object_of(line) is Err,
    ensures
        object_of(line)->Err_0 is InvalidShape,
{
}

/// Lines that begin with lines in error are in error, and with the same
/// error.
pub proof fn lemma_objects_fail(lines: Seq<Seq<char>>, k: int)
    requires
        0 <= k < lines.len(),
        objects_of(lines.take(k + 1)) is Err,
    ensures
        objects_of(lines) == objects_of(lines.take(k + 1)),
    decreases lines.len(),
{
    if k + 1 == lines.len() {
        assert(lines.take(k + 1) =~= lines);
    } else {
        assert(lines.drop_last().take(k + 1) =~= lines.take(k + 1));
        lemma_objects_fail(lines.drop_last(), k);
    }
}

/// Lines that each describe an object describe as many objects, one for
/// one and in order.
pub proof fn lemma_objects_line_by_line(lines: Seq<Seq<char>>)
    requires
        objects_of(lines) is Ok,
    ensures
        objects_of(lines)->Ok_0.len() == lines.len(),
        forall|i: int|
            0 <= i < lines.len() ==> object_of(#[trigger] lines[i]) == Ok::<
                ObjectView,
                ConfigErrorView,
            >(objects_of(lines)->Ok_0[i]),
    decreases lines.len(),
{
    if lines.len() > 0 {
        lemma_objects_line_by_line(lines.drop_last());
        let before = objects_of(lines.drop_last())->Ok_0;
        assert forall|i: int| 0 <= i < lines.len() implies object_of(#[trigger] lines[i]) == Ok::<
            ObjectView,
            ConfigErrorView,
        >(objects_of(lines)->Ok_0[i]) by {
            if i < lines.len() - 1 {
                assert(lines.drop_last()[i] == lines[i]);
            }
        }
    }
}

/// Where every line describes an object, the lines describe objects.
pub proof fn lemma_objects_in_order(lines: Seq<Seq<char>>)
    requires
        forall|i: int| 0 <= i < lines.len() ==> object_of(#[trigger] lines[i]) is Ok,
    ensures
        objects_of(lines) is Ok,
    decreases lines.len(),
{
    if lines.len() > 0 {
        assert forall|i: int| 0 <= i < lines.drop_last().len() implies object_of(
            #[trigger] lines.drop_last()[i],
        ) is Ok by {
            assert(lines.drop_last()[i] == lines[i]);
        }
        lemma_objects_in_order(lines.drop_last());
        assert(object_of(lines[lines.len() - 1]) is Ok);
    }
}

/// The first line that describes no object decides the error of all.
pub proof fn lemma_first_bad_object_decides(lines: Seq<Seq<char>>, k: int)
    requires
        0 <= k < lines.len(),
        forall|j: int| 0 <= j < k ==> object_of(#[trigger] lines[j]) is Ok,
        object_of(lines[k]) is Err,
    ensures
        objects_of(lines) == Err::<Seq<ObjectView>, ConfigErrorView>(object_of(lines[k])->Err_0),
{
    let upto = lines.take(k + 1);
    assert(upto.drop_last() =~= lines.take(k));
    assert(upto.last() == lines[k]);
    assert forall|j: int| 0 <= j < lines.take(k).len() implies object_of(
        #[trigger] lines.take(k)[j],
    ) is Ok by {
        assert(lines.take(k)[j] == lines[j]);
    }
    lemma_objects_in_order(lines.take(k));
    lemma_objects_fail(lines, k);
}

/// Every number of a shape that was read is a numeral.
pub proof fn lemma_shape_is_well_formed(parts: Seq<Seq<char>>)
    requires
        shape_of(parts) is Ok,
    ensures
        shape_of(parts)->Ok_0.is_well_formed(),
{
    let w = words(parts);
    if w.len() == 5 && w[0] == "sphere"@ && numerals(w, 1, 5) {
        assert(is_number(w[1]) && is_number(w[2]) && is_number(w[3]) && is_number(w[4]));
    } else {
        assert(is_number(w[1]) && is_number(w[2]) && is_number(w[3]) && is_number(w[4])
            && is_number(w[5]) && is_number(w[6]));
    }
}

/// Every number of an object that was read is a numeral.
pub proof fn lemma_object_is_well_formed(line: Seq<char>)
    requires
        object_of(line) is Ok,
    ensures
        object_of(line)->Ok_0.is_well_formed(),
{
    let t = split(line, ' ');
    let (material, used) = material_of(t)->0;
    lemma_shape_is_well_formed(t.skip(2 + used));
    reveal_strlit("1.0");
    reveal_strlit("0.0");
    lemma_short_decimal("1.0"@);
    lemma_short_decimal("0.0"@);
}

/// Every number of a description that was read is a numeral.
pub proof fn lemma_config_is_well_formed(raw: Seq<char>)
    requires
        config_of(raw) is Ok,
    ensures
        config_of(raw)->Ok_0.is_well_formed(),
{
    let l = content_lines(raw);
    let c = config_of(raw)->Ok_0;
    let t0 = split(l[0], ' ');
    let t1 = split(l[1], ' ');
    assert(is_number(t0[0]) && is_number(t0[1]) && is_number(t0[2]));
    assert(is_number(t1[0]) && is_number(t1[1]) && is_number(t1[2]));
    assert(is_number(split(l[3], ' ')[0]));
    assert(is_number(split(l[5], ' ')[0]));
    assert(is_number(split(l[6], ' ')[0]) && is_number(split(l[6], ' ')[1]));
    lemma_objects_line_by_line(l.skip(7));
    assert forall|i: int| 0 <= i < c.objects.len() implies (#[trigger] c.objects[i]).is_well_formed() by {
        lemma_object_is_well_formed(l.skip(7)[i]);
    }
}

/// The lines of a description that the parser reads.
pub fn read_lines(raw: &str) -> (kept: Vec<String>)
    ensures
        texts(kept@) == content_lines(raw@),
{
    let all = split_text(raw, '\n');
    let mut kept: Vec<String> = Vec::new();
    let mut i: usize = 0;
    proof {
        reveal(Seq::filter);
        assert(texts(all@).take(0) =~= Seq::<Seq<char>>::empty());
        assert(texts(kept@) =~= keep_content(texts(all@).take(0)));
    }
    while i < all.len()
        invariant
            i <= all.len(),
            texts(kept@) == keep_content(texts(all@).take(i as int)),
        decreases all.len() - i,
    {
        let chars = chars_of(all[i].as_str());
        let comment = chars.len() >= 2 && chars[0] == '/' && chars[1] == '/';
        let ghost before = texts(kept@);
        proof {
            reveal(Seq::filter);
            assert(texts(all@).take(i + 1).drop_last() =~= texts(all@).take(i as int));
            assert(texts(all@).take(i + 1).last() == all@[i as int]@);
        }
        if chars.len() > 0 && !comment {
            kept.push(all[i].clone());
            assert(texts(kept@) =~= before.push(all@[i as int]@));
        }
        i += 1;
    }
    assert(texts(all@).take(all.len() as int) =~= texts(all@));
    kept
}

/// Reads a line of exactly `n` numerals.
pub fn parse_nums(line: &str, n: usize) -> (r: Result<Vec<Number>, ConfigError>)
    ensures
        match r {
            Ok(v) => numbers_line(line@, n as int) && v.len() == n && forall|i: int|
                0 <= i < n ==> (#[trigger] v[i])@ == split(line@, ' ')[i],
            Err(e) => !numbers_line(line@, n as int) && e@ == ConfigErrorView::InvalidLine(line@),
        },
{
    let tokens = split_text(line, ' ');
    if tokens.len() != n {
        return Err(ConfigError::InvalidLine(line.to_owned()));
    }
    let mut out: Vec<Number> = Vec::new();
    let mut i: usize = 0;
    while i < n
        invariant
            i <= n,
            tokens.len() == n,
            texts(tokens@) == split(line@, ' '),
            out.len() == i,
            forall|k: int| 0 <= k < i ==> is_number(#[trigger] split(line@, ' ')[k]),
            forall|k: int| 0 <= k < i ==> (#[trigger] out[k])@ == split(line@, ' ')[k],
        decreases n - i,
    {
        assert(texts(tokens@)[i as int] == tokens@[i as int]@);
        match Number::parse(tokens[i].as_str()) {
            Some(x) => {
                out.push(x);
            },
            None => {
                return Err(ConfigError::InvalidLine(line.to_owned()));
            },
        }
        i += 1;
    }
    Ok(out)
}

/// Reads a line of three coordinates.
pub fn parse_vec(line: &str) -> (r: Result<Vector3, ConfigError>)
    ensures
        match r {
            Ok(v) => vector_of(line@) == Some(v@),
            Err(e) => vector_of(line@) is None && e@ == ConfigErrorView::InvalidLine(line@),
        },
{
    match parse_nums(line, 3) {
        Ok(v) => Ok(Vector3 { x: v[0].clone(), y: v[1].clone(), z: v[2].clone() }),
        Err(e) => Err(e),
    }
}

/// Reads a line of one numeral.
pub fn parse_num(line: &str) -> (r: Result<Number, ConfigError>)
    ensures
        match r {
            Ok(v) => numbers_line(line@, 1) && v@ == split(line@, ' ')[0],
            Err(e) => !numbers_line(line@, 1) && e@ == ConfigErrorView::InvalidLine(line@),
        },
{
    match parse_nums(line, 1) {
        Ok(v) => Ok(v[0].clone()),
        Err(e) => Err(e),
    }
}

/// Reads the line of the image's width and height.
pub fn parse_size(line: &str) -> (r: Result<(u32, u32), ConfigError>)
    ensures
        match r {
            Ok(v) => wholes_of(line@, u32::MAX as nat) == Some((v.0 as nat, v.1 as nat)),
            Err(e) => wholes_of(line@, u32::MAX as nat) is None && e@
                == ConfigErrorView::InvalidLine(line@),
        },
{
    let tokens = split_text(line, ' ');
    if tokens.len() != 2 {
        return Err(ConfigError::InvalidLine(line.to_owned()));
    }
    assert(texts(tokens@)[0] == tokens@[0]@);
    assert(texts(tokens@)[1] == tokens@[1]@);
    match (parse_u32(tokens[0].as_str()), parse_u32(tokens[1].as_str())) {
        (Some(a), Some(b)) => Ok((a, b)),
        _ => Err(ConfigError::InvalidLine(line.to_owned())),
    }
}

/// Reads the line of the recursion's depth and the number of samples.
pub fn parse_limits(line: &str) -> (r: Result<(u16, u16), ConfigError>)
    ensures
        match r {
            Ok(v) => wholes_of(line@, u16::MAX as nat) == Some((v.0 as nat, v.1 as nat)),
            Err(e) => wholes_of(line@, u16::MAX as nat) is None && e@
                == ConfigErrorView::InvalidLine(line@),
        },
{
    let tokens = split_text(line, ' ');
    if tokens.len() != 2 {
        return Err(ConfigError::InvalidLine(line.to_owned()));
    }
    assert(texts(tokens@)[0] == tokens@[0]@);
    assert(texts(tokens@)[1] == tokens@[1]@);
    match (parse_u16(tokens[0].as_str()), parse_u16(tokens[1].as_str())) {
        (Some(a), Some(b)) => Ok((a, b)),
        _ => Err(ConfigError::InvalidLine(line.to_owned())),
    }
}

/// Reads the two lines of the camera.
pub fn parse_pov(pos_line: &str, dir_line: &str) -> (r: Result<Ray, ConfigError>)
    ensures
        match r {
            Ok(ray) => vector_of(pos_line@) == Some(ray@.pos) && vector_of(dir_line@) == Some(
                ray@.dir,
            ),
            Err(e) => if vector_of(pos_line@) is None {
                e@ == ConfigErrorView::InvalidLine(pos_line@)
            } else {
                vector_of(dir_line@) is None && e@ == ConfigErrorView::InvalidLine(dir_line@)
            },
        },
{
    let pos = match parse_vec(pos_line) {
        Ok(v) => v,
        Err(e) => {
            return Err(e);
        },
    };
    let dir = match parse_vec(dir_line) {
        Ok(v) => v,
        Err(e) => {
            return Err(e);
        },
    };
    Ok(Ray { pos, dir })
}

/// The strings from index `from` on that are not empty.
fn words_from(parts: &Vec<String>, from: usize) -> (out: Vec<String>)
    requires
        from <= parts.len(),
    ensures
        texts(out@) == words(texts(parts@).skip(from as int)),
{
    let mut out: Vec<String> = Vec::new();
    let mut i: usize = from;
    proof {
        reveal(Seq::filter);
        assert(texts(parts@).subrange(from as int, from as int) =~= Seq::<Seq<char>>::empty());
        assert(texts(out@) =~= words(texts(parts@).subrange(from as int, from as int)));
    }
    while i < parts.len()
        invariant
            from <= i <= parts.len(),
            texts(out@) == words(texts(parts@).subrange(from as int, i as int)),
        decreases parts.len() - i,
    {
        let ghost before = texts(out@);
        let ghost next = texts(parts@).subrange(from as int, i + 1);
        proof {
            reveal(Seq::filter);
            assert(next.drop_last() =~= texts(parts@).subrange(from as int, i as int));
            assert(next.last() == parts@[i as int]@);
        }
        if !parts[i].as_str().is_empty() {
            out.push(parts[i].clone());
            assert(texts(out@) =~= before.push(parts@[i as int]@));
        }
        i += 1;
    }
    assert(texts(parts@).subrange(from as int, parts.len() as int) =~= texts(parts@).skip(
        from as int,
    ));
    out
}

/// Reads the words from index `from` up to `to` as numerals.
fn read_numerals(w: &Vec<String>, from: usize, to: usize) -> (r: Option<Vec<Number>>)
    requires
        from <= to <= w.len(),
    ensures
        match r {
            Some(v) => numerals(texts(w@), from as int, to as int) && v.len() == to - from
                && forall|k: int| 0 <= k < v.len() ==> (#[trigger] v[k])@ == w@[from + k]@,
            None => !numerals(texts(w@), from as int, to as int),
        },
{
    let mut out: Vec<Number> = Vec::new();
    let mut i: usize = from;
    while i < to
        invariant
            from <= i <= to <= w.len(),
            out.len() == i - from,
            forall|k: int| from <= k < i ==> is_number(#[trigger] texts(w@)[k]),
            forall|k: int| 0 <= k < out.len() ==> (#[trigger] out[k])@ == w@[from + k]@,
        decreases to - i,
    {
        assert(texts(w@)[i as int] == w@[i as int]@);
        match Number::parse(w[i].as_str()) {
            Some(x) => {
                out.push(x);
            },
            None => {
                return None;
            },
        }
        i += 1;
    }
    Some(out)
}

/// Reads the shape that the tokens of an object's line describe from index
/// `from` on.
pub fn parse_shape(parts: &Vec<String>, from: usize) -> (r: Result<Shape, ConfigError>)
    requires
        from <= parts.len(),
    ensures
        match r {
            Ok(shape) => shape_of(texts(parts@).skip(from as int)) == Ok::<
                ShapeView,
                ConfigErrorView,
            >(shape@),
            Err(e) => shape_of(texts(parts@).skip(from as int)) == Err::<
                ShapeView,
                ConfigErrorView,
            >(e@),
        },
{
    let w = words_from(parts, from);
    if w.len() == 5 {
        assert(texts(w@)[0] == w@[0]@);
        if same_text(w[0].as_str(), "sphere") {
            match read_numerals(&w, 1, 5) {
                Some(v) => {
                    assert(texts(w@)[1] == w@[1]@ && texts(w@)[2] == w@[2]@ && texts(w@)[3]
                        == w@[3]@ && texts(w@)[4] == w@[4]@);
                    let center = Vector3 { x: v[0].clone(), y: v[1].clone(), z: v[2].clone() };
                    return Ok(Shape::Sphere(Sphere { center, radius: v[3].clone() }));
                },
                None => {},
            }
        }
    } else if w.len() == 7 {
        assert(texts(w@)[0] == w@[0]@);
        if same_text(w[0].as_str(), "plane") {
            match read_numerals(&w, 1, 7) {
                Some(v) => {
                    assert(texts(w@)[1] == w@[1]@ && texts(w@)[2] == w@[2]@ && texts(w@)[3]
                        == w@[3]@ && texts(w@)[4] == w@[4]@ && texts(w@)[5] == w@[5]@ && texts(
                        w@,
                    )[6] == w@[6]@);
                    let point = Vector3 { x: v[0].clone(), y: v[1].clone(), z: v[2].clone() };
                    let norm = Vector3 { x: v[3].clone(), y: v[4].clone(), z: v[5].clone() };
                    return Ok(Shape::Plane(Plane { point, norm }));
                },
                None => {},
            }
        }
    }
    Err(ConfigError::InvalidShape(join_words(parts, from)))
}

/// Reads the line of one object.
pub fn parse_object(raw: &str) -> (r: Result<Object, ConfigError>)
    ensures
        match r {
            Ok(o) => object_of(raw@) == Ok::<ObjectView, ConfigErrorView>(o@),
            Err(e) => object_of(raw@) == Err::<ObjectView, ConfigErrorView>(e@),
        },
{
    let t = split_text(raw, ' ');
    proof {
        lemma_split_len(raw@, ' ');
        assert(texts(t@)[0] == t@[0]@);
    }
    let color = match Color::from_string(t[0].as_str()) {
        Some(c) => c,
        None => {
            return Err(ConfigError::InvalidObject(raw.to_owned()));
        },
    };
    if t.len() < 3 {
        return Err(ConfigError::InvalidObject(raw.to_owned()));
    }
    proof {
        assert(texts(t@)[1] == t@[1]@);
        assert(texts(t@)[2] == t@[2]@);
    }
    let lum = match Number::parse(t[1].as_str()) {
        Some(x) => x,
        None => {
            return Err(ConfigError::InvalidObject(raw.to_owned()));
        },
    };
    let kind = t[2].as_str();
    let (material, used): (Material, usize) = if same_text(kind, "mirror") {
        (Material::Mirror, 1)
    } else if same_text(kind, "glass") {
        (Material::Translucent(Number::one()), 1)
    } else if same_text(kind, "opaque") {
        (Material::Translucent(Number::zero()), 1)
    } else if same_text(kind, "translucent") && t.len() >= 4 {
        assert(texts(t@)[3] == t@[3]@);
        match Number::parse(t[3].as_str()) {
            Some(clearness) => (Material::Translucent(clearness), 2),
            None => {
                return Err(ConfigError::InvalidObject(raw.to_owned()));
            },
        }
    } else {
        return Err(ConfigError::InvalidObject(raw.to_owned()));
    };
    match parse_shape(&t, 2 + used) {
        Ok(shape) => Ok(Object { shape, color, lum, material }),
        Err(e) => Err(e),
    }
}

/// Reads a scene description.
#[verifier::loop_isolation(false)]
pub fn parse_config(raw: &str) -> (r: Result<Config, ConfigError>)
    ensures
        match r {
            Ok(c) => config_of(raw@) == Ok::<ConfigView, ConfigErrorView>(c@),
            Err(e) => config_of(raw@) == Err::<ConfigView, ConfigErrorView>(e@),
        },
{
    let lines = read_lines(raw);
    let ghost l = content_lines(raw@);
    if lines.len() < 2 {
        return Err(ConfigError::NotEnoughLines);
    }
    proof {
        assert(l[0] == lines@[0]@ && l[1] == lines@[1]@);
    }
    let pov = match parse_pov(lines[0].as_str(), lines[1].as_str()) {
        Ok(ray) => ray,
        Err(e) => {
            return Err(e);
        },
    };
    if lines.len() < 3 {
        return Err(ConfigError::NotEnoughLines);
    }
    proof {
        assert(l[2] == lines@[2]@);
    }
    let (width, height) = match parse_size(lines[2].as_str()) {
        Ok(size) => size,
        Err(e) => {
            return Err(e);
        },
    };
    if lines.len() < 4 {
        return Err(ConfigError::NotEnoughLines);
    }
    proof {
        assert(l[3] == lines@[3]@);
    }
    let fov = match parse_num(lines[3].as_str()) {
        Ok(x) => x,
        Err(e) => {
            return Err(e);
        },
    };
    if lines.len() < 5 {
        return Err(ConfigError::NotEnoughLines);
    }
    proof {
        assert(l[4] == lines@[4]@);
    }
    let (max_depth, num_tries) = match parse_limits(lines[4].as_str()) {
        Ok(limits) => limits,
        Err(e) => {
            return Err(e);
        },
    };
    if lines.len() < 6 {
        return Err(ConfigError::NotEnoughLines);
    }
    proof {
        assert(l[5] == lines@[5]@);
    }
    let max_variation = match parse_num(lines[5].as_str()) {
        Ok(x) => x,
        Err(e) => {
            return Err(e);
        },
    };
    if lines.len() < 7 {
        return Err(ConfigError::NotEnoughLines);
    }
    proof {
        assert(l[6] == lines@[6]@);
    }
    let scales = match parse_nums(lines[6].as_str(), 2) {
        Ok(v) => v,
        Err(e) => {
            return Err(e);
        },
    };
    let mut objects: Vec<Object> = Vec::new();
    let mut i: usize = 7;
    proof {
        assert(l.subrange(7, 7) =~= Seq::<Seq<char>>::empty());
        assert(object_views(objects@) =~= Seq::<ObjectView>::empty());
    }
    while i < lines.len()
        invariant
            7 <= i <= lines.len(),
            l == texts(lines@),
            objects_of(l.subrange(7, i as int)) == Ok::<Seq<ObjectView>, ConfigErrorView>(
                object_views(objects@),
            ),
        decreases lines.len() - i,
    {
        let ghost before = object_views(objects@);
        proof {
            assert(l.subrange(7, i + 1).drop_last() =~= l.subrange(7, i as int));
            assert(l.subrange(7, i + 1).last() == lines@[i as int]@);
        }
        match parse_object(lines[i].as_str()) {
            Ok(o) => {
                objects.push(o);
                assert(object_views(objects@) =~= before.push(o@));
            },
            Err(e) => {
                proof {
                    assert(l.skip(7).take(i - 7 + 1) =~= l.subrange(7, i + 1));
                    lemma_objects_fail(l.skip(7), i - 7);
                }
                return Err(e);
            },
        }
        i += 1;
    }
    assert(l.subrange(7, lines.len() as int) =~= l.skip(7));
    Ok(
        Config {
            objects,
            pov,
            width,
            height,
            fov,
            max_depth,
            num_tries,
            max_variation,
            col_scale: scales[0].clone(),
            lum_scale: scales[1].clone(),
        },
    )
}

} // verus!
