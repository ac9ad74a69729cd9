use roomnet::color::{char_to_color, hover_color};
use roomnet::hover::{LabelMarker, PointerEvent};
use roomnet::layout::{marker_extent, marker_position, room_extent, Face};

#[test]
fn char_to_color_exact_hues() {
    // 65 * 10007 = 650455 = 1806 * 360 + 295, 66 * 10007 = 660462 = 1834 *
    // 360 + 222.
    assert_eq!(char_to_color('A').hue_deg, 295);
    assert_eq!(char_to_color('B').hue_deg, 222);
}

#[test]
fn adjacent_characters_get_distinct_hues() {
    assert_ne!(char_to_color('A').hue_deg, char_to_color('B').hue_deg);
    assert_ne!(char_to_color('a').hue_deg, char_to_color('b').hue_deg);
    assert_ne!(char_to_color('0').hue_deg, char_to_color('1').hue_deg);
}

#[test]
fn char_to_color_deterministic_and_in_range() {
    for c in ['A', 'z', '0', '~', '\u{00DF}', '\u{10FFFF}'] {
        let first = char_to_color(c);
        let second = char_to_color(c);
        assert_eq!(first, second);
        assert!(first.hue_deg < 360);
        assert_eq!(first.saturation_pct, 100);
        assert_eq!(first.lightness_pct, 50);
        assert_eq!(first.alpha_pct, 100);
    }
}

#[test]
fn hover_color_raises_lightness_only() {
    let base = char_to_color('Q');
    let hover = hover_color('Q');
    assert_eq!(hover.hue_deg, base.hue_deg);
    assert_eq!(hover.saturation_pct, base.saturation_pct);
    assert_eq!(hover.lightness_pct, 80);
    assert_eq!(hover.alpha_pct, base.alpha_pct);
}

#[test]
fn hover_enter_and_exit_swap_colors() {
    let mut marker = LabelMarker::new('c');
    assert_eq!(marker.current_color(), char_to_color('c'));
    marker.apply(PointerEvent::Enter);
    assert_eq!(marker.current_color(), hover_color('c'));
    marker.apply(PointerEvent::Exit);
    assert_eq!(marker.current_color(), char_to_color('c'));
}

#[test]
fn hover_independent_of_order_and_repetition() {
    let mut marker = LabelMarker::new('k');
    for e in [
        PointerEvent::Enter,
        PointerEvent::Enter,
        PointerEvent::Exit,
        PointerEvent::Enter,
        PointerEvent::Exit,
        PointerEvent::Exit,
    ] {
        marker.apply(e);
    }
    assert_eq!(marker.current_color(), char_to_color('k'));
    marker.apply(PointerEvent::Enter);
    assert_eq!(marker.current_color(), hover_color('k'));
}

#[test]
fn marker_positions_per_face() {
    // A 4 x 1 x 2 box; cell at local column 1, local row 0 of each face, in
    // tenths of a cell.
    let (w, d, h) = (4, 1, 2);
    assert_eq!(marker_position(Face::Top, 1, 0, w, d, h), (-5, 8, 0));
    assert_eq!(marker_position(Face::Back, 1, 0, w, d, h), (-5, 5, -3));
    assert_eq!(marker_position(Face::Right, 1, 0, w, d, h), (18, 0, 5));
    assert_eq!(marker_position(Face::Front, 1, 0, w, d, h), (5, 5, 3));
    assert_eq!(marker_position(Face::Left, 1, 0, w, d, h), (-18, 0, -5));
    assert_eq!(marker_position(Face::Floor, 1, 0, w, d, h), (-5, -8, 0));
}

#[test]
fn marker_positions_center_the_local_coordinate() {
    // On a 2 x 2 x 2 box the two top cells sit symmetrically about the
    // center.
    let left = marker_position(Face::Top, 0, 0, 2, 2, 2);
    let right = marker_position(Face::Top, 1, 0, 2, 2, 2);
    assert_eq!(left.0, -right.0);
    assert_eq!(left.1, right.1);
}

#[test]
fn marker_extents_per_face() {
    assert_eq!(marker_extent(Face::Top), (10, 2, 10));
    assert_eq!(marker_extent(Face::Floor), (10, 2, 10));
    assert_eq!(marker_extent(Face::Back), (10, 10, 2));
    assert_eq!(marker_extent(Face::Front), (10, 10, 2));
    assert_eq!(marker_extent(Face::Right), (2, 10, 10));
    assert_eq!(marker_extent(Face::Left), (2, 10, 10));
}

#[test]
fn room_extent_scales_cells_to_tenths() {
    assert_eq!(room_extent(4, 1, 2), (40, 20, 10));
    assert_eq!(room_extent(0, 0, 0), (0, 0, 0));
}
