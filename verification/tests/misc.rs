use hyperpuzzle::ndim::{enforce_ndim, NdimError};
use hyperpuzzle::motor::Motor;
use hyperpuzzle::piece::{Color, ColorRelations, FacetId, LuaColor, PieceBuilder, PolytopeId};
use hyperpuzzle::scramble::{ScrambleParams, ScrambleType};
use hyperpuzzle::scramble_progress::ScrambleProgress;

#[test]
fn ndim_checks() {
    assert_eq!(enforce_ndim(3, 4), Ok(3));
    assert_eq!(enforce_ndim(4, 4), Ok(4));
    assert_eq!(enforce_ndim(5, 4), Err(NdimError { ndim: 5, expected_ndim: 4 }));
}

#[test]
fn sticker_colors() {
    let p = PieceBuilder::new(PolytopeId(7), vec![(FacetId(1), Color(3)), (FacetId(2), Color(5))]);
    assert_eq!(p.sticker_color(FacetId(2)), Color(5));
    assert_eq!(p.sticker_color(FacetId(9)), Color::internal());
    assert_eq!(Color::internal(), Color(0));
    assert!(p.cut_result.is_empty());
    assert!(p.piece_type.is_none());
}

#[test]
fn scramble_params_keep_type() {
    let a = ScrambleParams::new(ScrambleType::Partial(12));
    assert_eq!(a.ty, ScrambleType::Partial(12));
    let b = ScrambleParams::new(ScrambleType::Full);
    assert_eq!(b.ty, ScrambleType::Full);
}

#[test]
fn scramble_progress_single_thread() {
    let p = ScrambleProgress::new();
    assert_eq!(p.fraction(), (0, 1));
    p.set_total(10);
    p.set_progress(4);
    assert_eq!(p.fraction(), (4, 10));
    assert!(!p.is_cancel_requested());
    p.request_cancel();
    assert!(p.is_cancel_requested());
}

#[test]
fn colors_transform_by_recorded_relations() {
    let mut rels = ColorRelations::new();
    let t = Motor::from_coefs(3, vec![0, 1_000_000_000, 0, 0]).unwrap();
    rels.record(Color(2), Motor::from_coefs(3, vec![0, 1_000_000_000, 0, 0]).unwrap(), Color(5));
    let c = LuaColor { id: Color(2) };
    assert_eq!(c.transform(&rels, &t).unwrap(), Some(LuaColor { id: Color(5) }));
    // No relation is recorded for another color or another motor.
    assert_eq!(LuaColor { id: Color(3) }.transform(&rels, &t).unwrap(), None);
    assert_eq!(c.transform(&rels, &Motor::ident(3, 4)).unwrap(), None);
}
