use vstd::prelude::*;
use vstd::string::StringExecFns;

pub mod crossing_and_tunnels;
pub mod points_and_derailer;
pub mod track_and_curves;

verus! {

/// A place on the drawing, `x` to the right and `y` downwards.
pub type Coordinate = (i32, i32);

/// The width and the height of the square that an element is drawn in.
pub const SCALE: i32 = 20;

pub const TOP_LEFT: Coordinate = (0, 0);

pub const TOP: Coordinate = (10, 0);

pub const TOP_RIGHT: Coordinate = (20, 0);

pub const RIGHT: Coordinate = (20, 10);

pub const BOTTOM_RIGHT: Coordinate = (20, 20);

pub const BOTTOM: Coordinate = (10, 20);

pub const BOTTOM_LEFT: Coordinate = (0, 20);

pub const LEFT: Coordinate = (0, 10);

pub const CENTRE: Coordinate = (10, 10);

pub type ID = u32;

pub type ElementDescriptor = (Elements, ID);

/// What can be drawn into one square of the track plan.
pub enum Elements {
    // Tracks
    TrackHorizontal,
    TrackVertical,
    TrackUp,
    TrackDown,
    // Curves
    CurveLeftUp,
    CurveLeftDown,
    CurveRightUp,
    CurveRightDown,
    CurveTopLeft,
    CurveTopRight,
    CurveBottomLeft,
    CurveBottomRight,
    // Crossings
    DiagonalCrossing,
    CrossingUp,
    CrossingDown,
    // Points
    PointLeftUp,
    PointLeftDown,
    PointRightUp,
    PointRightDown,
    YPointRight,
    YPointLeft,
    SingleSlipPointUpUp,
    SingleSlipPointUpDown,
    SingleSlipPointDownUp,
    SingleSlipPointDownDown,
    DoubleSlipPointUp,
    DoubleSlipPointDown,
    DiagonalPointUpRight,
    DiagonalPointUpLeft,
    DiagonalPointDownRight,
    DiagonalPointDownLeft,
    // Derailer
    DerailerRightUp,
    DerailerRightDown,
    DerailerLeftUp,
    DerailerLeftDown,
    // Tunnel
    DiagonalTunnelUp,
    DiagonalTunnelDown,
    TunnelHorizontal,
    TunnelVertical,
    /// A square that stays empty.
    Nothing,
}

/// What a path begins with, up to the width of its stroke.
pub const PATH_OPEN: &'static str =
    "    <path\n        style=\"stroke:#000000;stroke-opacity:1;fill:none;stroke-width:";

/// What stands between the width of a path's stroke and its points.
pub const PATH_DATA: &'static str = "\"\n        d=\"M";

/// What a path ends with.
pub const PATH_CLOSE: &'static str = "\"\n    />\n";

/// The stroke of a track.
pub const WIDE: &'static str = "1.5";

/// The stroke of the connection that makes a slip point of a crossing.
pub const THIN: &'static str = "0.5";

/// The digit that stands for `d`.
pub open spec fn digit(d: int) -> char {
    if d == 0 {
        '0'
    } else if d == 1 {
        '1'
    } else if d == 2 {
        '2'
    } else if d == 3 {
        '3'
    } else if d == 4 {
        '4'
    } else if d == 5 {
        '5'
    } else if d == 6 {
        '6'
    } else if d == 7 {
        '7'
    } else if d == 8 {
        '8'
    } else {
        '9'
    }
}

/// The digits of `n` in base ten, without leading zeros.
pub open spec fn digits(n: nat) -> Seq<char>
    decreases n,
{
    if n < 10 {
        seq![digit(n as int)]
    } else {
        digits(n / 10).push(digit((n % 10) as int))
    }
}

/// `n` as it is written in base ten, with a minus sign where it is negative.
pub open spec fn decimal(n: int) -> Seq<char> {
    if n < 0 {
        seq!['-'] + digits((-n) as nat)
    } else {
        digits(n as nat)
    }
}

/// A point as a path names it: a blank, `x`, a comma, a blank and `y`.
pub open spec fn point_text(point: (int, int)) -> Seq<char> {
    seq![' '] + decimal(point.0) + seq![',', ' '] + decimal(point.1)
}

/// The points of a path, one after the other.
pub open spec fn points_text(points: Seq<(int, int)>) -> Seq<char>
    decreases points.len(),
{
    if points.len() == 0 {
        Seq::empty()
    } else {
        points_text(points.drop_last()) + point_text(points.last())
    }
}

/// The element that draws a line of the stroke `width` through `points`.
pub open spec fn path_text(width: Seq<char>, points: Seq<(int, int)>) -> Seq<char> {
    PATH_OPEN@ + width + PATH_DATA@ + points_text(points) + PATH_CLOSE@
}

/// The place that lies `corner` away from `origin`.
pub open spec fn at(origin: Coordinate, corner: Coordinate) -> (int, int) {
    (corner.0 + origin.0, corner.1 + origin.1)
}

/// The name of one digit.
fn digit_text(d: u64) -> (r: &'static str)
    requires
        d < 10,
    ensures
        r@ == seq![digit(d as int)],
{
    proof {
        reveal_strlit("0");
        reveal_strlit("1");
        reveal_strlit("2");
        reveal_strlit("3");
        reveal_strlit("4");
        reveal_strlit("5");
        reveal_strlit("6");
        reveal_strlit("7");
        reveal_strlit("8");
        reveal_strlit("9");
    }
    let text = if d == 0 {
        "0"
    } else if d == 1 {
        "1"
    } else if d == 2 {
        "2"
    } else if d == 3 {
        "3"
    } else if d == 4 {
        "4"
    } else if d == 5 {
        "5"
    } else if d == 6 {
        "6"
    } else if d == 7 {
        "7"
    } else if d == 8 {
        "8"
    } else {
        "9"
    };
    assert(text@ =~= seq![digit(d as int)]);
    text
}

fn push_digits(svg: &mut String, n: u64)
    ensures
        final(svg)@ == old(svg)@ + digits(n as nat),
    decreases n,
{
    if n >= 10 {
        push_digits(svg, n / 10);
    }
    svg.append(digit_text(n % 10));
    assert(svg@ =~= old(svg)@ + digits(n as nat));
}

/// Writes `n` in base ten behind `svg`.
pub fn push_decimal(svg: &mut String, n: i64)
    ensures
        final(svg)@ == old(svg)@ + decimal(n as int),
{
    if n < 0 {
        proof {
            reveal_strlit("-");
        }
        svg.append("-");
        assert(svg@ =~= old(svg)@ + seq!['-']);
        let positive: u64 = if n == i64::MIN {
            9223372036854775808u64
        } else {
            (-n) as u64
        };
        push_digits(svg, positive);
        assert(svg@ =~= old(svg)@ + decimal(n as int));
    } else {
        push_digits(svg, n as u64);
    }
}

/// The place that lies `dx` to the right of `point` and `dy` below it.
pub open spec fn shifted(point: (int, int), dx: int, dy: int) -> (int, int) {
    (point.0 + dx, point.1 + dy)
}

/// The numbers of a place as integers.
pub open spec fn plain(point: (i64, i64)) -> (int, int) {
    (point.0 as int, point.1 as int)
}

/// The place that lies `corner` away from `origin`, and `dx` and `dy` further.
pub fn place(origin: Coordinate, corner: Coordinate, dx: i8, dy: i8) -> (r: (i64, i64))
    ensures
        plain(r) == shifted(at(origin, corner), dx as int, dy as int),
{
    (corner.0 as i64 + origin.0 as i64 + dx as i64, corner.1 as i64 + origin.1 as i64 + dy as i64)
}

fn push_point(svg: &mut String, point: (i64, i64))
    ensures
        final(svg)@ == old(svg)@ + point_text(plain(point)),
{
    proof {
        reveal_strlit(" ");
        reveal_strlit(", ");
    }
    svg.append(" ");
    push_decimal(svg, point.0);
    svg.append(", ");
    push_decimal(svg, point.1);
    assert(svg@ =~= old(svg)@ + point_text(plain(point)));
}

fn push_open(svg: &mut String, width: &'static str)
    ensures
        final(svg)@ == old(svg)@ + PATH_OPEN@ + width@ + PATH_DATA@,
{
    svg.append(PATH_OPEN);
    svg.append(width);
    svg.append(PATH_DATA);
}

/// Writes a path of the stroke `width` from `a` to `b` behind `svg`.
pub fn push_line(svg: &mut String, width: &'static str, a: (i64, i64), b: (i64, i64))
    ensures
        final(svg)@ == old(svg)@ + path_text(width@, seq![plain(a), plain(b)]),
{
    push_open(svg, width);
    push_point(svg, a);
    push_point(svg, b);
    svg.append(PATH_CLOSE);
    proof {
        let points = seq![plain(a), plain(b)];
        reveal_with_fuel(points_text, 3);
        assert(points.drop_last() =~= seq![plain(a)]);
        assert(points.drop_last().drop_last() =~= Seq::<(int, int)>::empty());
        assert(points_text(points) =~= point_text(plain(a)) + point_text(plain(b)));
        assert(svg@ =~= old(svg)@ + path_text(width@, points));
    }
}

/// Writes a path of the stroke `width` from `a` over `b` to `c` behind `svg`.
pub fn push_bend(
    svg: &mut String,
    width: &'static str,
    a: (i64, i64),
    b: (i64, i64),
    c: (i64, i64),
)
    ensures
        final(svg)@ == old(svg)@ + path_text(width@, seq![plain(a), plain(b), plain(c)]),
{
    push_open(svg, width);
    push_point(svg, a);
    push_point(svg, b);
    push_point(svg, c);
    svg.append(PATH_CLOSE);
    proof {
        let points = seq![plain(a), plain(b), plain(c)];
        reveal_with_fuel(points_text, 4);
        assert(points.drop_last() =~= seq![plain(a), plain(b)]);
        assert(points.drop_last().drop_last() =~= seq![plain(a)]);
        assert(points.drop_last().drop_last().drop_last() =~= Seq::<(int, int)>::empty());
        assert(points_text(points) =~= point_text(plain(a)) + point_text(plain(b)) + point_text(
            plain(c),
        ));
        assert(svg@ =~= old(svg)@ + path_text(width@, points));
    }
}

impl Elements {
    /// Whether there is a drawing for the element.
    pub open spec fn drawn(&self) -> bool {
        match self {
            Elements::DoubleSlipPointDown => false,
            Elements::DiagonalPointUpRight => false,
            Elements::DiagonalPointUpLeft => false,
            Elements::DiagonalPointDownRight => false,
            Elements::DiagonalPointDownLeft => false,
            Elements::DerailerRightUp => false,
            Elements::DerailerRightDown => false,
            Elements::DerailerLeftUp => false,
            Elements::DerailerLeftDown => false,
            _ => true,
        }
    }

    /// Whether there is a drawing for the element: what [`Self::render_svg`]
    /// asks for.
    pub fn is_drawn(&self) -> (r: bool)
        ensures
            r == self.drawn(),
    {
        match self {
            Elements::DoubleSlipPointDown => false,
            Elements::DiagonalPointUpRight => false,
            Elements::DiagonalPointUpLeft => false,
            Elements::DiagonalPointDownRight => false,
            Elements::DiagonalPointDownLeft => false,
            Elements::DerailerRightUp => false,
            Elements::DerailerRightDown => false,
            Elements::DerailerLeftUp => false,
            Elements::DerailerLeftDown => false,
            _ => true,
        }
    }

    /// What [`Self::render_svg`] writes for the element in the square whose
    /// upper left corner is `coordinate`.
    pub open spec fn text(&self, coordinate: (i32, i32)) -> Seq<char> {
        match self {
            Elements::TrackHorizontal => Self::track_horizontal_text(coordinate),
            Elements::TrackVertical => Self::track_vertical_text(coordinate),
            Elements::TrackUp => Self::track_up_text(coordinate),
            Elements::TrackDown => Self::track_down_text(coordinate),
            Elements::CurveLeftUp => Self::curve_left_up_text(coordinate),
            Elements::CurveLeftDown => Self::curve_left_down_text(coordinate),
            Elements::CurveRightUp => Self::curve_right_up_text(coordinate),
            Elements::CurveRightDown => Self::curve_right_down_text(coordinate),
            Elements::CurveTopLeft => Self::curve_top_left_text(coordinate),
            Elements::CurveTopRight => Self::curve_top_right_text(coordinate),
            Elements::CurveBottomLeft => Self::curve_bottom_left_text(coordinate),
            Elements::CurveBottomRight => Self::curve_bottom_right_text(coordinate),
            Elements::DiagonalCrossing => Self::diagonal_crossing_text(coordinate),
            Elements::CrossingUp => Self::crossing_up_text(coordinate),
            Elements::CrossingDown => Self::crossing_down_text(coordinate),
            Elements::PointLeftUp => Self::point_left_up_text(coordinate),
            Elements::PointLeftDown => Self::point_left_down_text(coordinate),
            Elements::PointRightUp => Self::point_right_up_text(coordinate),
            Elements::PointRightDown => Self::point_right_down_text(coordinate),
            Elements::YPointRight => Self::y_point_left_text(coordinate),
            Elements::YPointLeft => Self::y_point_right_text(coordinate),
            Elements::SingleSlipPointUpUp => Self::single_slip_point_up_up_text(coordinate),
            Elements::SingleSlipPointUpDown => Self::single_slip_point_up_down_text(coordinate),
            Elements::SingleSlipPointDownUp => Self::single_slip_point_down_up_text(coordinate),
            Elements::SingleSlipPointDownDown => Self::single_slip_point_down_down_text(coordinate),
            Elements::DoubleSlipPointUp => Self::double_slip_point_up_text(coordinate),
            Elements::DiagonalTunnelUp => Self::diagonal_tunnel_up_text(coordinate),
            Elements::DiagonalTunnelDown => Self::diagonal_tunnel_down_text(coordinate),
            Elements::TunnelHorizontal => Self::tunnel_horizontal_text(coordinate),
            Elements::TunnelVertical => Self::tunnel_vertical_text(coordinate),
            _ => Seq::empty(),
        }
    }

    /// Writes the drawing of the element in the square `coordinate` of the
    /// track plan behind `svg`. The squares are counted from the upper left
    /// corner of the plan, to the right and downwards.
    pub fn render_svg(&self, coordinate: (u16, u16), svg: &mut String)
        requires
            self.drawn(),
        ensures
            final(svg)@ == old(svg)@ + self.text(
                ((coordinate.0 * SCALE) as i32, (coordinate.1 * SCALE) as i32),
            ),
    {
        let origin = (coordinate.0 as i32 * SCALE, coordinate.1 as i32 * SCALE);

        match self {
            Elements::TrackHorizontal => Self::track_horizontal(origin, svg),
            Elements::TrackVertical => Self::track_vertical(origin, svg),
            Elements::TrackUp => Self::track_up(origin, svg),
            Elements::TrackDown => Self::track_down(origin, svg),
            Elements::CurveLeftUp => Self::curve_left_up(origin, svg),
            Elements::CurveLeftDown => Self::curve_left_down(origin, svg),
            Elements::CurveRightUp => Self::curve_right_up(origin, svg),
            Elements::CurveRightDown => Self::curve_right_down(origin, svg),
            Elements::CurveTopLeft => Self::curve_top_left(origin, svg),
            Elements::CurveTopRight => Self::curve_top_right(origin, svg),
            Elements::CurveBottomLeft => Self::curve_bottom_left(origin, svg),
            Elements::CurveBottomRight => Self::curve_bottom_right(origin, svg),
            Elements::DiagonalCrossing => Self::diagonal_crossing(origin, svg),
            Elements::CrossingUp => Self::crossing_up(origin, svg),
            Elements::CrossingDown => Self::crossing_down(origin, svg),
            Elements::PointLeftUp => Self::point_left_up(origin, svg),
            Elements::PointLeftDown => Self::point_left_down(origin, svg),
            Elements::PointRightUp => Self::point_right_up(origin, svg),
            Elements::PointRightDown => Self::point_right_down(origin, svg),
            Elements::YPointRight => Self::y_point_left(origin, svg),
            Elements::YPointLeft => Self::y_point_right(origin, svg),
            Elements::SingleSlipPointUpUp => Self::single_slip_point_up_up(origin, svg),
            Elements::SingleSlipPointUpDown => Self::single_slip_point_up_down(origin, svg),
            Elements::SingleSlipPointDownUp => Self::single_slip_point_down_up(origin, svg),
            Elements::SingleSlipPointDownDown => Self::single_slip_point_down_down(origin, svg),
            Elements::DoubleSlipPointUp => Self::double_slip_point_up(origin, svg),
            Elements::DiagonalTunnelUp => Self::diagonal_tunnel_up(origin, svg),
            Elements::DiagonalTunnelDown => Self::diagonal_tunnel_down(origin, svg),
            Elements::TunnelHorizontal => Self::tunnel_horizontal(origin, svg),
            Elements::TunnelVertical => Self::tunnel_vertical(origin, svg),
            _ => {
                assert(svg@ =~= old(svg)@ + Seq::<char>::empty());
            },
        }
    }
}

} // verus!
