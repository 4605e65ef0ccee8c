use signal_box_sim::svg_render::{place, push_bend, push_decimal, push_line, Elements, SCALE};

const NULL: (i32, i32) = (0, 0);

fn svg_prolog(svg: &mut String) {
    svg.push_str(&format!(
        r#"<svg
    version="1.1"
    width="{SCALE}mm"
    height="{SCALE}mm"
    viewBox="0 0 {SCALE} {SCALE}"
    xmlns="http://www.w3.org/2000/svg">
"#
    ));
}

fn svg_epilog(svg: &mut String) {
    svg.push_str(r#"</svg>"#);
}

/// One path as it has to stand in the drawing.
fn path(width: &str, d: &str) -> String {
    format!(
        r#"    <path
        style="stroke:#000000;stroke-opacity:1;fill:none;stroke-width:{width}"
        d="{d}"
    />
"#
    )
}

/// A drawing of one square with the given paths.
fn drawing(paths: &[(&str, &str)]) -> String {
    let mut svg = String::new();
    svg_prolog(&mut svg);
    for (width, d) in paths {
        svg.push_str(&path(width, d));
    }
    svg_epilog(&mut svg);
    svg
}

#[test]
fn svg_prolog_names_the_scale() {
    let mut svg = String::new();
    svg_prolog(&mut svg);
    assert_eq!(
        svg,
        "<svg\n    version=\"1.1\"\n    width=\"20mm\"\n    height=\"20mm\"\n    viewBox=\"0 0 20 20\"\n    xmlns=\"http://www.w3.org/2000/svg\">\n"
    );
}

#[test]
fn test_track_horizontal() {
    let mut svg = String::new();
    svg_prolog(&mut svg);
    Elements::track_horizontal(NULL, &mut svg);
    svg_epilog(&mut svg);
    assert_eq!(svg, drawing(&[("1.5", "M 0, 10 20, 10")]));
}

#[test]
fn test_track_vertical() {
    let mut svg = String::new();
    svg_prolog(&mut svg);
    Elements::track_vertical(NULL, &mut svg);
    svg_epilog(&mut svg);
    assert_eq!(svg, drawing(&[("1.5", "M 10, 20 10, 0")]));
}

#[test]
fn test_track_up() {
    let mut svg = String::new();
    svg_prolog(&mut svg);
    Elements::track_up(NULL, &mut svg);
    svg_epilog(&mut svg);
    assert_eq!(svg, drawing(&[("1.5", "M 0, 20 20, 0")]));
}

#[test]
fn test_track_down() {
    let mut svg = String::new();
    svg_prolog(&mut svg);
    Elements::track_down(NULL, &mut svg);
    svg_epilog(&mut svg);
    assert_eq!(svg, drawing(&[("1.5", "M 0, 0 20, 20")]));
}

#[test]
fn test_curve_left_up() {
    let mut svg = String::new();
    svg_prolog(&mut svg);
    Elements::curve_left_up(NULL, &mut svg);
    svg_epilog(&mut svg);
    assert_eq!(svg, drawing(&[("1.5", "M 0, 10 10, 10 20, 0")]));
}

#[test]
fn test_curve_left_down() {
    let mut svg = String::new();
    svg_prolog(&mut svg);
    Elements::curve_left_down(NULL, &mut svg);
    svg_epilog(&mut svg);
    assert_eq!(svg, drawing(&[("1.5", "M 0, 10 10, 10 20, 20")]));
}

#[test]
fn test_curve_right_up() {
    let mut svg = String::new();
    svg_prolog(&mut svg);
    Elements::curve_right_up(NULL, &mut svg);
    svg_epilog(&mut svg);
    assert_eq!(svg, drawing(&[("1.5", "M 20, 10 10, 10 0, 0")]));
}

#[test]
fn test_curve_right_down() {
    let mut svg = String::new();
    svg_prolog(&mut svg);
    Elements::curve_right_down(NULL, &mut svg);
    svg_epilog(&mut svg);
    assert_eq!(svg, drawing(&[("1.5", "M 20, 10 10, 10 0, 20")]));
}

#[test]
fn test_curve_top_left() {
    let mut svg = String::new();
    svg_prolog(&mut svg);
    Elements::curve_top_left(NULL, &mut svg);
    svg_epilog(&mut svg);
    assert_eq!(svg, drawing(&[("1.5", "M 10, 0 10, 10 0, 20")]));
}

#[test]
fn test_curve_top_right() {
    let mut svg = String::new();
    svg_prolog(&mut svg);
    Elements::curve_top_right(NULL, &mut svg);
    svg_epilog(&mut svg);
    assert_eq!(svg, drawing(&[("1.5", "M 10, 0 10, 10 20, 20")]));
}

#[test]
fn test_curve_bottom_left() {
    let mut svg = String::new();
    svg_prolog(&mut svg);
    Elements::curve_bottom_left(NULL, &mut svg);
    svg_epilog(&mut svg);
    assert_eq!(svg, drawing(&[("1.5", "M 10, 20 10, 10 0, 0")]));
}

#[test]
fn test_curve_bottom_right() {
    let mut svg = String::new();
    svg_prolog(&mut svg);
    Elements::curve_bottom_right(NULL, &mut svg);
    svg_epilog(&mut svg);
    assert_eq!(svg, drawing(&[("1.5", "M 10, 20 10, 10 20, 0")]));
}

#[test]
fn test_diagonal_crossing() {
    let mut svg = String::new();
    svg_prolog(&mut svg);
    Elements::diagonal_crossing(NULL, &mut svg);
    svg_epilog(&mut svg);
    assert_eq!(svg, drawing(&[("1.5", "M 0, 0 20, 20"), ("1.5", "M 20, 0 0, 20")]));
}

#[test]
fn test_crossing_up() {
    let mut svg = String::new();
    svg_prolog(&mut svg);
    Elements::crossing_up(NULL, &mut svg);
    svg_epilog(&mut svg);
    assert_eq!(svg, drawing(&[("1.5", "M 0, 10 20, 10"), ("1.5", "M 20, 0 0, 20")]));
}

#[test]
fn test_crossing_down() {
    let mut svg = String::new();
    svg_prolog(&mut svg);
    Elements::crossing_down(NULL, &mut svg);
    svg_epilog(&mut svg);
    assert_eq!(svg, drawing(&[("1.5", "M 0, 10 20, 10"), ("1.5", "M 0, 0 20, 20")]));
}

#[test]
fn test_tunnel_horizontal() {
    let mut svg = String::new();
    svg_prolog(&mut svg);
    Elements::tunnel_horizontal(NULL, &mut svg);
    svg_epilog(&mut svg);
    assert_eq!(svg, drawing(&[("1.5", "M 0, 10 20, 10"), ("1.5", "M 10, 0 10, 7"), ("1.5", "M 10, 20 10, 13")]));
}

#[test]
fn test_tunnel_vertical() {
    let mut svg = String::new();
    svg_prolog(&mut svg);
    Elements::tunnel_vertical(NULL, &mut svg);
    svg_epilog(&mut svg);
    assert_eq!(svg, drawing(&[("1.5", "M 10, 0 10, 20"), ("1.5", "M 0, 10 7, 10"), ("1.5", "M 20, 10 13, 10")]));
}

#[test]
fn test_diagonal_tunnel_up() {
    let mut svg = String::new();
    svg_prolog(&mut svg);
    Elements::diagonal_tunnel_up(NULL, &mut svg);
    svg_epilog(&mut svg);
    assert_eq!(svg, drawing(&[("1.5", "M 0, 20 20, 0"), ("1.5", "M 0, 0 7, 7"), ("1.5", "M 20, 20 13, 13")]));
}

#[test]
fn test_diagonal_tunnel_down() {
    let mut svg = String::new();
    svg_prolog(&mut svg);
    Elements::diagonal_tunnel_down(NULL, &mut svg);
    svg_epilog(&mut svg);
    assert_eq!(svg, drawing(&[("1.5", "M 0, 0 20, 20"), ("1.5", "M 0, 20 7, 13"), ("1.5", "M 20, 0 13, 7")]));
}

#[test]
fn test_point_left_up() {
    let mut svg = String::new();
    svg_prolog(&mut svg);
    Elements::point_left_up(NULL, &mut svg);
    svg_epilog(&mut svg);
    assert_eq!(svg, drawing(&[("1.5", "M 0, 10 20, 10"), ("1.5", "M 10, 10 20, 0")]));
}

#[test]
fn test_point_left_down() {
    let mut svg = String::new();
    svg_prolog(&mut svg);
    Elements::point_left_down(NULL, &mut svg);
    svg_epilog(&mut svg);
    assert_eq!(svg, drawing(&[("1.5", "M 0, 10 20, 10"), ("1.5", "M 10, 10 20, 20")]));
}

#[test]
fn test_point_right_up() {
    let mut svg = String::new();
    svg_prolog(&mut svg);
    Elements::point_right_up(NULL, &mut svg);
    svg_epilog(&mut svg);
    assert_eq!(svg, drawing(&[("1.5", "M 0, 10 20, 10"), ("1.5", "M 10, 10 0, 0")]));
}

#[test]
fn test_point_right_down() {
    let mut svg = String::new();
    svg_prolog(&mut svg);
    Elements::point_right_down(NULL, &mut svg);
    svg_epilog(&mut svg);
    assert_eq!(svg, drawing(&[("1.5", "M 0, 10 20, 10"), ("1.5", "M 10, 10 0, 20")]));
}

#[test]
fn test_y_point_left() {
    let mut svg = String::new();
    svg_prolog(&mut svg);
    Elements::y_point_left(NULL, &mut svg);
    svg_epilog(&mut svg);
    assert_eq!(svg, drawing(&[("1.5", "M 0, 10 10, 10 20, 0"), ("1.5", "M 10, 10 20, 20")]));
}

#[test]
fn test_y_point_right() {
    let mut svg = String::new();
    svg_prolog(&mut svg);
    Elements::y_point_right(NULL, &mut svg);
    svg_epilog(&mut svg);
    assert_eq!(svg, drawing(&[("1.5", "M 20, 10 10, 10 0, 0"), ("1.5", "M 10, 10 0, 20")]));
}

#[test]
fn test_single_slip_point_up_up() {
    let mut svg = String::new();
    svg_prolog(&mut svg);
    Elements::single_slip_point_up_up(NULL, &mut svg);
    svg_epilog(&mut svg);
    assert_eq!(svg, drawing(&[("1.5", "M 0, 10 20, 10"), ("1.5", "M 20, 0 0, 20"), ("0.5", "M 15, 5 5, 10")]));
}

#[test]
fn test_single_slip_point_up_down() {
    let mut svg = String::new();
    svg_prolog(&mut svg);
    Elements::single_slip_point_up_down(NULL, &mut svg);
    svg_epilog(&mut svg);
    assert_eq!(svg, drawing(&[("1.5", "M 0, 10 20, 10"), ("1.5", "M 20, 0 0, 20"), ("0.5", "M 5, 15 15, 10")]));
}

#[test]
fn test_single_slip_point_down_up() {
    let mut svg = String::new();
    svg_prolog(&mut svg);
    Elements::single_slip_point_down_up(NULL, &mut svg);
    svg_epilog(&mut svg);
    assert_eq!(svg, drawing(&[("1.5", "M 0, 10 20, 10"), ("1.5", "M 0, 0 20, 20"), ("0.5", "M 5, 5 15, 10")]));
}

#[test]
fn test_single_slip_point_down_down() {
    let mut svg = String::new();
    svg_prolog(&mut svg);
    Elements::single_slip_point_down_down(NULL, &mut svg);
    svg_epilog(&mut svg);
    assert_eq!(svg, drawing(&[("1.5", "M 0, 10 20, 10"), ("1.5", "M 0, 0 20, 20"), ("0.5", "M 15, 15 5, 10")]));
}

#[test]
fn test_double_slip_point_up() {
    let mut svg = String::new();
    svg_prolog(&mut svg);
    Elements::double_slip_point_up(NULL, &mut svg);
    svg_epilog(&mut svg);
    assert_eq!(svg, drawing(&[("1.5", "M 0, 10 20, 10"), ("1.5", "M 20, 0 0, 20"), ("0.5", "M 15, 5 5, 10"), ("0.5", "M 5, 15 15, 10")]));
}

#[test]
fn test_double_slip_point_down() {
    let mut svg = String::new();
    svg_prolog(&mut svg);
    Elements::double_slip_point_down(NULL, &mut svg);
    svg_epilog(&mut svg);
    assert_eq!(svg, drawing(&[("1.5", "M 0, 10 20, 10"), ("1.5", "M 0, 0 20, 20"), ("0.5", "M 5, 5 15, 10"), ("0.5", "M 15, 15 5, 10")]));
}

#[test]
fn test_render_circle() {
    let mut svg = String::new();
    svg.push_str(
        r#"<svg
    version="1.1"
    width="140mm"
    height="120mm"
    viewBox="0 0 140 120"
    xmlns="http://www.w3.org/2000/svg">
"#,
    );

    let elements = [
        [
            Elements::Nothing,
            Elements::Nothing,
            Elements::CurveRightDown,
            Elements::TrackHorizontal,
            Elements::CurveLeftDown,
            Elements::Nothing,
            Elements::Nothing,
        ],
        [
            Elements::Nothing,
            Elements::TrackUp,
            Elements::Nothing,
            Elements::Nothing,
            Elements::Nothing,
            Elements::TrackDown,
            Elements::Nothing,
        ],
        [
            Elements::CurveBottomRight,
            Elements::Nothing,
            Elements::Nothing,
            Elements::Nothing,
            Elements::Nothing,
            Elements::Nothing,
            Elements::CurveBottomLeft,
        ],
        [
            Elements::CurveTopRight,
            Elements::Nothing,
            Elements::Nothing,
            Elements::Nothing,
            Elements::Nothing,
            Elements::Nothing,
            Elements::TrackVertical,
        ],
        [
            Elements::Nothing,
            Elements::CurveRightUp,
            Elements::TrackHorizontal,
            Elements::CurveLeftDown,
            Elements::Nothing,
            Elements::Nothing,
            Elements::CurveTopLeft,
        ],
        [
            Elements::Nothing,
            Elements::Nothing,
            Elements::Nothing,
            Elements::Nothing,
            Elements::CurveRightUp,
            Elements::CurveLeftUp,
            Elements::Nothing,
        ],
    ];

    for (y, es) in elements.iter().enumerate() {
        for (x, e) in es.iter().enumerate() {
            assert!(e.is_drawn());
            e.render_svg((x as u16, y as u16), &mut svg);
        }
    }

    svg_epilog(&mut svg);

    let mut expected = String::new();
    expected.push_str("<svg\n    version=\"1.1\"\n    width=\"140mm\"\n    height=\"120mm\"\n    viewBox=\"0 0 140 120\"\n    xmlns=\"http://www.w3.org/2000/svg\">\n");
    for d in [
        "M 60, 10 50, 10 40, 20",
        "M 60, 10 80, 10",
        "M 80, 10 90, 10 100, 20",
        "M 20, 40 40, 20",
        "M 100, 20 120, 40",
        "M 10, 60 10, 50 20, 40",
        "M 130, 60 130, 50 120, 40",
        "M 10, 60 10, 70 20, 80",
        "M 130, 80 130, 60",
        "M 40, 90 30, 90 20, 80",
        "M 40, 90 60, 90",
        "M 60, 90 70, 90 80, 100",
        "M 130, 80 130, 90 120, 100",
        "M 100, 110 90, 110 80, 100",
        "M 100, 110 110, 110 120, 100",
    ] {
        expected.push_str(&path("1.5", d));
    }
    expected.push_str("</svg>");
    assert_eq!(svg, expected);
}

#[test]
fn render_svg_draws_each_element_in_its_square() {
    let cases: Vec<(Elements, Vec<(&str, &str)>)> = vec![
        (Elements::TrackHorizontal, vec![("1.5", "M 60, 50 80, 50")]),
        (Elements::TrackVertical, vec![("1.5", "M 70, 60 70, 40")]),
        (Elements::TrackUp, vec![("1.5", "M 60, 60 80, 40")]),
        (Elements::TrackDown, vec![("1.5", "M 60, 40 80, 60")]),
        (Elements::CurveLeftUp, vec![("1.5", "M 60, 50 70, 50 80, 40")]),
        (Elements::CurveLeftDown, vec![("1.5", "M 60, 50 70, 50 80, 60")]),
        (Elements::CurveRightUp, vec![("1.5", "M 80, 50 70, 50 60, 40")]),
        (Elements::CurveRightDown, vec![("1.5", "M 80, 50 70, 50 60, 60")]),
        (Elements::CurveTopLeft, vec![("1.5", "M 70, 40 70, 50 60, 60")]),
        (Elements::CurveTopRight, vec![("1.5", "M 70, 40 70, 50 80, 60")]),
        (Elements::CurveBottomLeft, vec![("1.5", "M 70, 60 70, 50 60, 40")]),
        (Elements::CurveBottomRight, vec![("1.5", "M 70, 60 70, 50 80, 40")]),
        (Elements::DiagonalCrossing, vec![("1.5", "M 60, 40 80, 60"), ("1.5", "M 80, 40 60, 60")]),
        (Elements::CrossingUp, vec![("1.5", "M 60, 50 80, 50"), ("1.5", "M 80, 40 60, 60")]),
        (Elements::CrossingDown, vec![("1.5", "M 60, 50 80, 50"), ("1.5", "M 60, 40 80, 60")]),
        (Elements::PointLeftUp, vec![("1.5", "M 60, 50 80, 50"), ("1.5", "M 70, 50 80, 40")]),
        (Elements::PointLeftDown, vec![("1.5", "M 60, 50 80, 50"), ("1.5", "M 70, 50 80, 60")]),
        (Elements::PointRightUp, vec![("1.5", "M 60, 50 80, 50"), ("1.5", "M 70, 50 60, 40")]),
        (Elements::PointRightDown, vec![("1.5", "M 60, 50 80, 50"), ("1.5", "M 70, 50 60, 60")]),
        (Elements::YPointRight, vec![("1.5", "M 60, 50 70, 50 80, 40"), ("1.5", "M 70, 50 80, 60")]),
        (Elements::YPointLeft, vec![("1.5", "M 80, 50 70, 50 60, 40"), ("1.5", "M 70, 50 60, 60")]),
        (Elements::SingleSlipPointUpUp, vec![("1.5", "M 60, 50 80, 50"), ("1.5", "M 80, 40 60, 60"), ("0.5", "M 75, 45 65, 50")]),
        (Elements::SingleSlipPointUpDown, vec![("1.5", "M 60, 50 80, 50"), ("1.5", "M 80, 40 60, 60"), ("0.5", "M 65, 55 75, 50")]),
        (Elements::SingleSlipPointDownUp, vec![("1.5", "M 60, 50 80, 50"), ("1.5", "M 60, 40 80, 60"), ("0.5", "M 65, 45 75, 50")]),
        (Elements::SingleSlipPointDownDown, vec![("1.5", "M 60, 50 80, 50"), ("1.5", "M 60, 40 80, 60"), ("0.5", "M 75, 55 65, 50")]),
        (Elements::DoubleSlipPointUp, vec![("1.5", "M 60, 50 80, 50"), ("1.5", "M 80, 40 60, 60"), ("0.5", "M 75, 45 65, 50"), ("0.5", "M 65, 55 75, 50")]),
        (Elements::DiagonalTunnelUp, vec![("1.5", "M 60, 60 80, 40"), ("1.5", "M 60, 40 67, 47"), ("1.5", "M 80, 60 73, 53")]),
        (Elements::DiagonalTunnelDown, vec![("1.5", "M 60, 40 80, 60"), ("1.5", "M 60, 60 67, 53"), ("1.5", "M 80, 40 73, 47")]),
        (Elements::TunnelHorizontal, vec![("1.5", "M 60, 50 80, 50"), ("1.5", "M 70, 40 70, 47"), ("1.5", "M 70, 60 70, 53")]),
        (Elements::TunnelVertical, vec![("1.5", "M 70, 40 70, 60"), ("1.5", "M 60, 50 67, 50"), ("1.5", "M 80, 50 73, 50")]),
        (Elements::Nothing, vec![]),
    ];
    for (element, paths) in cases {
        assert!(element.is_drawn());
        let mut svg = String::from("before");
        element.render_svg((3, 2), &mut svg);
        let mut expected = String::from("before");
        for (width, d) in paths {
            expected.push_str(&path(width, d));
        }
        assert_eq!(svg, expected);
    }
}

#[test]
fn elements_without_a_drawing_say_so() {
    for element in [
        Elements::DoubleSlipPointDown,
        Elements::DiagonalPointUpRight,
        Elements::DiagonalPointUpLeft,
        Elements::DiagonalPointDownRight,
        Elements::DiagonalPointDownLeft,
        Elements::DerailerRightUp,
        Elements::DerailerRightDown,
        Elements::DerailerLeftUp,
        Elements::DerailerLeftDown,
    ] {
        assert!(!element.is_drawn());
    }
}

#[test]
fn render_svg_reaches_the_last_square() {
    let mut svg = String::new();
    Elements::TrackDown.render_svg((65535, 65535), &mut svg);
    assert_eq!(svg, path("1.5", "M 1310700, 1310700 1310720, 1310720"));
}

#[test]
fn drawings_do_not_overflow_at_the_edge_of_the_numbers() {
    let mut svg = String::new();
    Elements::track_down((i32::MAX, i32::MIN), &mut svg);
    assert_eq!(svg, path("1.5", "M 2147483647, -2147483648 2147483667, -2147483628"));
    let mut svg = String::new();
    Elements::single_slip_point_up_up((-7, -30), &mut svg);
    assert_eq!(
        svg,
        path("1.5", "M -7, -20 13, -20") + &path("1.5", "M 13, -30 -7, -10") + &path("0.5", "M 8, -25 -2, -20")
    );
}

#[test]
fn push_decimal_writes_numbers_as_text() {
    for n in [0i64, 1, 9, 10, 11, 99, 100, 101, 1234567890, -1, -9, -10, -305, i64::MAX, i64::MIN] {
        let mut text = String::from("n=");
        push_decimal(&mut text, n);
        assert_eq!(text, format!("n={}", n));
    }
}

#[test]
fn place_adds_corner_origin_and_shift() {
    assert_eq!(place((100, 200), (20, 10), 0, 0), (120, 210));
    assert_eq!(place((100, 200), (10, 10), -3, 3), (107, 213));
    assert_eq!(place((i32::MAX, i32::MIN), (20, 0), 5, -5), (2147483672, -2147483653));
}

#[test]
fn push_line_and_push_bend_write_one_path() {
    let mut svg = String::new();
    push_line(&mut svg, "1.5", (1, 2), (3, 4));
    push_bend(&mut svg, "0.5", (-1, 0), (5, 6), (70, -80));
    assert_eq!(svg, path("1.5", "M 1, 2 3, 4") + &path("0.5", "M -1, 0 5, 6 70, -80"));
}
