use vstd::prelude::*;

use crate::svg_render::{
    BOTTOM, BOTTOM_LEFT, BOTTOM_RIGHT, CENTRE, Elements, LEFT, RIGHT, TOP, TOP_LEFT, TOP_RIGHT,
    WIDE, at, path_text, place, push_line, shifted,
};

verus! {

impl Elements {
    /// What [`Self::diagonal_crossing`] writes.
    pub open spec fn diagonal_crossing_text(coordinate: (i32, i32)) -> Seq<char> {
        path_text(WIDE@, seq![at(coordinate, TOP_LEFT), at(coordinate, BOTTOM_RIGHT)])
            + path_text(WIDE@, seq![at(coordinate, TOP_RIGHT), at(coordinate, BOTTOM_LEFT)])
    }

    /// The two diagonals of the square.
    pub fn diagonal_crossing(coordinate: (i32, i32), svg: &mut String)
        ensures
            final(svg)@ == old(svg)@ + Self::diagonal_crossing_text(coordinate),
    {
        push_line(
            svg,
            WIDE,
            place(coordinate, TOP_LEFT, 0, 0),
            place(coordinate, BOTTOM_RIGHT, 0, 0),
        );
        push_line(
            svg,
            WIDE,
            place(coordinate, TOP_RIGHT, 0, 0),
            place(coordinate, BOTTOM_LEFT, 0, 0),
        );
        assert(svg@ =~= old(svg)@ + Self::diagonal_crossing_text(coordinate));
    }

    /// What [`Self::crossing_up`] writes.
    pub open spec fn crossing_up_text(coordinate: (i32, i32)) -> Seq<char> {
        path_text(WIDE@, seq![at(coordinate, LEFT), at(coordinate, RIGHT)])
            + path_text(WIDE@, seq![at(coordinate, TOP_RIGHT), at(coordinate, BOTTOM_LEFT)])
    }

    /// A track from left to right that a rising diagonal crosses.
    pub fn crossing_up(coordinate: (i32, i32), svg: &mut String)
        ensures
            final(svg)@ == old(svg)@ + Self::crossing_up_text(coordinate),
    {
        push_line(svg, WIDE, place(coordinate, LEFT, 0, 0), place(coordinate, RIGHT, 0, 0));
        push_line(
            svg,
            WIDE,
            place(coordinate, TOP_RIGHT, 0, 0),
            place(coordinate, BOTTOM_LEFT, 0, 0),
        );
        assert(svg@ =~= old(svg)@ + Self::crossing_up_text(coordinate));
    }

    /// What [`Self::crossing_down`] writes.
    pub open spec fn crossing_down_text(coordinate: (i32, i32)) -> Seq<char> {
        path_text(WIDE@, seq![at(coordinate, LEFT), at(coordinate, RIGHT)])
            + path_text(WIDE@, seq![at(coordinate, TOP_LEFT), at(coordinate, BOTTOM_RIGHT)])
    }

    /// A track from left to right that a falling diagonal crosses.
    pub fn crossing_down(coordinate: (i32, i32), svg: &mut String)
        ensures
            final(svg)@ == old(svg)@ + Self::crossing_down_text(coordinate),
    {
        push_line(svg, WIDE, place(coordinate, LEFT, 0, 0), place(coordinate, RIGHT, 0, 0));
        push_line(
            svg,
            WIDE,
            place(coordinate, TOP_LEFT, 0, 0),
            place(coordinate, BOTTOM_RIGHT, 0, 0),
        );
        assert(svg@ =~= old(svg)@ + Self::crossing_down_text(coordinate));
    }

    /// What [`Self::tunnel_horizontal`] writes.
    pub open spec fn tunnel_horizontal_text(coordinate: (i32, i32)) -> Seq<char> {
        path_text(WIDE@, seq![at(coordinate, LEFT), at(coordinate, RIGHT)])
            + path_text(
            WIDE@,
            seq![
                at(coordinate, TOP),
                shifted(at(coordinate, CENTRE), 0, -3),
            ],
        )
            + path_text(
            WIDE@,
            seq![
                at(coordinate, BOTTOM),
                shifted(at(coordinate, CENTRE), 0, 3),
            ],
        )
    }

    /// A track from left to right, and one from top to bottom that is
    /// interrupted where it passes below.
    pub fn tunnel_horizontal(coordinate: (i32, i32), svg: &mut String)
        ensures
            final(svg)@ == old(svg)@ + Self::tunnel_horizontal_text(coordinate),
    {
        push_line(svg, WIDE, place(coordinate, LEFT, 0, 0), place(coordinate, RIGHT, 0, 0));
        push_line(svg, WIDE, place(coordinate, TOP, 0, 0), place(coordinate, CENTRE, 0, -3));
        push_line(svg, WIDE, place(coordinate, BOTTOM, 0, 0), place(coordinate, CENTRE, 0, 3));
        assert(svg@ =~= old(svg)@ + Self::tunnel_horizontal_text(coordinate));
    }

    /// What [`Self::tunnel_vertical`] writes.
    pub open spec fn tunnel_vertical_text(coordinate: (i32, i32)) -> Seq<char> {
        path_text(WIDE@, seq![at(coordinate, TOP), at(coordinate, BOTTOM)])
            + path_text(
            WIDE@,
            seq![
                at(coordinate, LEFT),
                shifted(at(coordinate, CENTRE), -3, 0),
            ],
        )
            + path_text(
            WIDE@,
            seq![
                at(coordinate, RIGHT),
                shifted(at(coordinate, CENTRE), 3, 0),
            ],
        )
    }

    /// A track from top to bottom, and one from left to right that is
    /// interrupted where it passes below.
    pub fn tunnel_vertical(coordinate: (i32, i32), svg: &mut String)
        ensures
            final(svg)@ == old(svg)@ + Self::tunnel_vertical_text(coordinate),
    {
        push_line(svg, WIDE, place(coordinate, TOP, 0, 0), place(coordinate, BOTTOM, 0, 0));
        push_line(svg, WIDE, place(coordinate, LEFT, 0, 0), place(coordinate, CENTRE, -3, 0));
        push_line(svg, WIDE, place(coordinate, RIGHT, 0, 0), place(coordinate, CENTRE, 3, 0));
        assert(svg@ =~= old(svg)@ + Self::tunnel_vertical_text(coordinate));
    }

    /// What [`Self::diagonal_tunnel_up`] writes.
    pub open spec fn diagonal_tunnel_up_text(coordinate: (i32, i32)) -> Seq<char> {
        path_text(WIDE@, seq![at(coordinate, BOTTOM_LEFT), at(coordinate, TOP_RIGHT)])
            + path_text(
            WIDE@,
            seq![
                at(coordinate, TOP_LEFT),
                shifted(at(coordinate, CENTRE), -3, -3),
            ],
        )
            + path_text(
            WIDE@,
            seq![
                at(coordinate, BOTTOM_RIGHT),
                shifted(at(coordinate, CENTRE), 3, 3),
            ],
        )
    }

    /// A rising diagonal, and a falling one that is interrupted where it
    /// passes below.
    pub fn diagonal_tunnel_up(coordinate: (i32, i32), svg: &mut String)
        ensures
            final(svg)@ == old(svg)@ + Self::diagonal_tunnel_up_text(coordinate),
    {
        push_line(
            svg,
            WIDE,
            place(coordinate, BOTTOM_LEFT, 0, 0),
            place(coordinate, TOP_RIGHT, 0, 0),
        );
        push_line(
            svg,
            WIDE,
            place(coordinate, TOP_LEFT, 0, 0),
            place(coordinate, CENTRE, -3, -3),
        );
        push_line(
            svg,
            WIDE,
            place(coordinate, BOTTOM_RIGHT, 0, 0),
            place(coordinate, CENTRE, 3, 3),
        );
        assert(svg@ =~= old(svg)@ + Self::diagonal_tunnel_up_text(coordinate));
    }

    /// What [`Self::diagonal_tunnel_down`] writes.
    pub open spec fn diagonal_tunnel_down_text(coordinate: (i32, i32)) -> Seq<char> {
        path_text(WIDE@, seq![at(coordinate, TOP_LEFT), at(coordinate, BOTTOM_RIGHT)])
            + path_text(
            WIDE@,
            seq![
                at(coordinate, BOTTOM_LEFT),
                shifted(at(coordinate, CENTRE), -3, 3),
            ],
        )
            + path_text(
            WIDE@,
            seq![
                at(coordinate, TOP_RIGHT),
                shifted(at(coordinate, CENTRE), 3, -3),
            ],
        )
    }

    /// A falling diagonal, and a rising one that is interrupted where it
    /// passes below.
    pub fn diagonal_tunnel_down(coordinate: (i32, i32), svg: &mut String)
        ensures
            final(svg)@ == old(svg)@ + Self::diagonal_tunnel_down_text(coordinate),
    {
        push_line(
            svg,
            WIDE,
            place(coordinate, TOP_LEFT, 0, 0),
            place(coordinate, BOTTOM_RIGHT, 0, 0),
        );
        push_line(
            svg,
            WIDE,
            place(coordinate, BOTTOM_LEFT, 0, 0),
            place(coordinate, CENTRE, -3, 3),
        );
        push_line(
            svg,
            WIDE,
            place(coordinate, TOP_RIGHT, 0, 0),
            place(coordinate, CENTRE, 3, -3),
        );
        assert(svg@ =~= old(svg)@ + Self::diagonal_tunnel_down_text(coordinate));
    }
}

} // verus!
