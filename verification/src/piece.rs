//! Pieces of a puzzle during construction.
use vstd::prelude::*;

use crate::motor::Motor;

verus! {

/// ID of a color; color 0 is the internal color of faces without a sticker.
#[derive(Debug, Clone, Copy, PartialEq, Eq, Structural)]
pub struct Color(pub u16);

impl Color {
    /// Returns the color of internal faces, which have no sticker.
    pub fn internal() -> (r: Color)
        ensures
            r == Color(0),
    {
        Color(0)
    }
}

/// ID of a facet of a polytope.
#[derive(Debug, Clone, Copy, PartialEq, Eq, Structural)]
pub struct FacetId(pub u32);

/// ID of a polytope.
#[derive(Debug, Clone, Copy, PartialEq, Eq, Structural)]
pub struct PolytopeId(pub u32);

/// ID of a piece.
#[derive(Debug, Clone, Copy, PartialEq, Eq, Structural)]
pub struct Piece(pub u32);

/// ID of a piece type.
#[derive(Debug, Clone, Copy, PartialEq, Eq, Structural)]
pub struct PieceType(pub u32);

/// The color of the first sticker on facet `f`, or the internal color.
pub open spec fn color_on(stickers: Seq<(FacetId, Color)>, f: FacetId) -> Color
    decreases stickers.len(),
{
    if stickers.len() == 0 {
        Color(0)
    } else if stickers[0].0 == f {
        stickers[0].1
    } else {
        color_on(stickers.drop_first(), f)
    }
}

/// Piece of a puzzle during puzzle construction.
#[derive(Debug, Clone)]
pub struct PieceBuilder {
    /// Polytope of the piece.
    pub polytope: PolytopeId,
    /// If the piece is defunct because it was cut, these are the pieces it
    /// was cut up into.
    pub cut_result: Vec<Piece>,
    /// Colored stickers of the piece, by facet.
    pub stickers: Vec<(FacetId, Color)>,
    /// Type of piece, if assigned.
    pub piece_type: Option<PieceType>,
}

impl PieceBuilder {
    /// Returns a new piece with the given polytope and stickers, not cut and
    /// without a type.
    pub fn new(polytope: PolytopeId, stickers: Vec<(FacetId, Color)>) -> (r: Self)
        ensures
            r.polytope == polytope,
            r.cut_result@.len() == 0,
            r.stickers@ == stickers@,
            r.piece_type is None,
    {
        PieceBuilder { polytope, cut_result: Vec::new(), stickers, piece_type: None }
    }

    /// Returns the color of a facet, or the internal color if there is no
    /// color assigned.
    pub fn sticker_color(&self, sticker_id: FacetId) -> (r: Color)
        ensures
            r == color_on(self.stickers@, sticker_id),
    {
        let mut i: usize = 0;
        assert(self.stickers@.skip(0) =~= self.stickers@);
        while i < self.stickers.len()
            invariant
                i <= self.stickers@.len(),
                color_on(self.stickers@, sticker_id) == color_on(
                    self.stickers@.skip(i as int),
                    sticker_id,
                ),
            decreases self.stickers@.len() - i,
        {
            assert(self.stickers@.skip(i as int)[0] == self.stickers@[i as int]);
            if self.stickers[i].0 == sticker_id {
                return self.stickers[i].1;
            }
            assert(self.stickers@.skip(i as int).drop_first() =~= self.stickers@.skip(i + 1));
            i = i + 1;
        }
        Color::internal()
    }
}

/// Handle to a color in the color system of a puzzle under construction.
#[derive(Debug, Clone, Copy, PartialEq, Eq, Structural)]
pub struct LuaColor {
    /// The color.
    pub id: Color,
}

/// Error reported to a puzzle definition script.
#[derive(Debug, Clone)]
pub struct ScriptError(pub String);

/// The colors related by transformations: each entry records that the cut
/// similar to the one that made the first color, transformed by the motor,
/// made the second color.
#[derive(Debug)]
pub struct ColorRelations {
    /// The recorded relations, in the order they were recorded.
    pub relations: Vec<(Color, Motor, Color)>,
}

/// The color that the first recorded relation from `from` by a motor equal
/// to `t` gives, if there is one.
pub open spec fn related_color(rels: Seq<(Color, Motor, Color)>, from: Color, t: (u8, Seq<i64>)) -> Option<
    Color,
>
    decreases rels.len(),
{
    if rels.len() == 0 {
        None
    } else if rels[0].0 == from && rels[0].1@ == t {
        Some(rels[0].2)
    } else {
        related_color(rels.drop_first(), from, t)
    }
}

impl ColorRelations {
    /// Returns relations with none recorded.
    pub fn new() -> (r: Self)
        ensures
            r.relations@.len() == 0,
    {
        ColorRelations { relations: Vec::new() }
    }

    /// Records that the cut that made `from`, transformed by `t`, made `to`.
    pub fn record(&mut self, from: Color, t: Motor, to: Color)
        ensures
            final(self).relations@ == old(self).relations@.push((from, t, to)),
    {
        self.relations.push((from, t, to));
    }
}

impl LuaColor {
    /// Returns the color generated by a similar cut as this color, but
    /// transformed by `t`, as the recorded relations give it; `None` if no
    /// such color is recorded.
    pub fn transform(&self, relations: &ColorRelations, t: &Motor) -> (r: Result<
        Option<LuaColor>,
        ScriptError,
    >)
        ensures
            r == Ok::<Option<LuaColor>, ScriptError>(
                match related_color(relations.relations@, self.id, t@) {
                    Some(c) => Some(LuaColor { id: c }),
                    None => None,
                },
            ),
    {
        let rels = &relations.relations;
        let mut i: usize = 0;
        assert(rels@.skip(0) =~= rels@);
        while i < rels.len()
            invariant
                i <= rels@.len(),
                rels@ == relations.relations@,
                related_color(rels@, self.id, t@) == related_color(rels@.skip(i as int), self.id, t@),
            decreases rels@.len() - i,
        {
            assert(rels@.skip(i as int)[0] == rels@[i as int]);
            if rels[i].0 == self.id && rels[i].1.same_as(t) {
                assert(rels@.skip(i as int).len() > 0);
                assert(related_color(rels@.skip(i as int), self.id, t@) == Some(rels@[i as int].2));
                let c = rels[i].2;
                return Ok(Some(LuaColor { id: c }));
            }
            assert(rels@.skip(i as int).drop_first() =~= rels@.skip(i + 1));
            i = i + 1;
        }
        Ok(None)
    }
}

/// Piece type of a puzzle during puzzle construction.
#[derive(Debug, Clone)]
pub struct PieceTypeBuilder {
    /// Name for the piece type. (e.g., "center/oblique_1_2/left")
    pub name: String,
}

} // verus!
