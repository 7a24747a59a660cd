use aasvg::chars::{
    is_vertex_or_left_decoration,
    gray_level, is_arrow_head, is_point, is_solid_b_line, is_solid_d_line, is_solid_h_line,
    is_solid_v_line, is_vertex, tri_angle,
};

#[test]
fn test_vertex_detection() {
    assert!(is_vertex('+'));
    assert!(is_vertex('.'));
    assert!(is_vertex('\''));
    assert!(is_vertex(','));
    assert!(is_vertex('`'));
    assert!(!is_vertex('-'));
    assert!(!is_vertex('|'));
}

#[test]
fn test_line_detection() {
    assert!(is_solid_h_line('-'));
    assert!(is_solid_h_line('─'));
    assert!(is_solid_h_line('+'));
    assert!(!is_solid_h_line('|'));

    assert!(is_solid_v_line('|'));
    assert!(is_solid_v_line('│'));
    assert!(is_solid_v_line('+'));
    assert!(!is_solid_v_line('-'));

    assert!(is_solid_d_line('/'));
    assert!(is_solid_b_line('\\'));
}

#[test]
fn test_arrow_detection() {
    assert!(is_arrow_head('>'));
    assert!(is_arrow_head('<'));
    assert!(is_arrow_head('^'));
    assert!(is_arrow_head('v'));
    assert!(is_arrow_head('V'));
    assert!(!is_arrow_head('-'));
}

#[test]
fn test_point_detection() {
    assert!(is_point('o'));
    assert!(is_point('*'));
    assert!(is_point('●'));
    assert!(is_point('○'));
    assert!(!is_point('+'));
}

#[test]
fn test_gray_levels() {
    assert_eq!(gray_level('▁'), 64);
    assert_eq!(gray_level('▂'), 128);
    assert_eq!(gray_level('▃'), 191);
    assert_eq!(gray_level('█'), 255);
    assert_eq!(gray_level('x'), 0);
}

#[test]
fn triangle_angles() {
    assert_eq!(tri_angle('◢'), 0);
    assert_eq!(tri_angle('◣'), 90);
    assert_eq!(tri_angle('◤'), 180);
    assert_eq!(tri_angle('◥'), 270);
    assert_eq!(tri_angle('x'), 0);
}

#[test]
fn junction_has_every_line_role() {
    assert!(is_solid_d_line('+'));
    assert!(is_solid_b_line('+'));
    assert!(is_solid_h_line('+'));
    assert!(is_solid_v_line('+'));
    assert!(!is_solid_d_line('|'));
    assert!(!is_solid_b_line('/'));
    assert!(is_vertex_or_left_decoration('+'));
}
