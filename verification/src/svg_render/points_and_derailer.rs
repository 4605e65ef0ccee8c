use vstd::prelude::*;

use crate::svg_render::{
    BOTTOM_LEFT, BOTTOM_RIGHT, CENTRE, Elements, LEFT, RIGHT, THIN, TOP_LEFT, TOP_RIGHT, WIDE,
    at, path_text, place, push_bend, push_line, shifted,
};

verus! {

impl Elements {
    /// What [`Self::point_left_up`] writes.
    pub open spec fn point_left_up_text(coordinate: (i32, i32)) -> Seq<char> {
        path_text(WIDE@, seq![at(coordinate, LEFT), at(coordinate, RIGHT)])
            + path_text(WIDE@, seq![at(coordinate, CENTRE), at(coordinate, TOP_RIGHT)])
    }

    /// A track from left to right with a branch from the centre to the upper
    /// right corner.
    pub fn point_left_up(coordinate: (i32, i32), svg: &mut String)
        ensures
            final(svg)@ == old(svg)@ + Self::point_left_up_text(coordinate),
    {
        push_line(svg, WIDE, place(coordinate, LEFT, 0, 0), place(coordinate, RIGHT, 0, 0));
        push_line(
            svg,
            WIDE,
            place(coordinate, CENTRE, 0, 0),
            place(coordinate, TOP_RIGHT, 0, 0),
        );
        assert(svg@ =~= old(svg)@ + Self::point_left_up_text(coordinate));
    }

    /// What [`Self::point_left_down`] writes.
    pub open spec fn point_left_down_text(coordinate: (i32, i32)) -> Seq<char> {
        path_text(WIDE@, seq![at(coordinate, LEFT), at(coordinate, RIGHT)])
            + path_text(WIDE@, seq![at(coordinate, CENTRE), at(coordinate, BOTTOM_RIGHT)])
    }

    /// A track from left to right with a branch from the centre to the lower
    /// right corner.
    pub fn point_left_down(coordinate: (i32, i32), svg: &mut String)
        ensures
            final(svg)@ == old(svg)@ + Self::point_left_down_text(coordinate),
    {
        push_line(svg, WIDE, place(coordinate, LEFT, 0, 0), place(coordinate, RIGHT, 0, 0));
        push_line(
            svg,
            WIDE,
            place(coordinate, CENTRE, 0, 0),
            place(coordinate, BOTTOM_RIGHT, 0, 0),
        );
        assert(svg@ =~= old(svg)@ + Self::point_left_down_text(coordinate));
    }

    /// What [`Self::point_right_up`] writes.
    pub open spec fn point_right_up_text(coordinate: (i32, i32)) -> Seq<char> {
        path_text(WIDE@, seq![at(coordinate, LEFT), at(coordinate, RIGHT)])
            + path_text(WIDE@, seq![at(coordinate, CENTRE), at(coordinate, TOP_LEFT)])
    }

    /// A track from left to right with a branch from the centre to the upper
    /// left corner.
    pub fn point_right_up(coordinate: (i32, i32), svg: &mut String)
        ensures
            final(svg)@ == old(svg)@ + Self::point_right_up_text(coordinate),
    {
        push_line(svg, WIDE, place(coordinate, LEFT, 0, 0), place(coordinate, RIGHT, 0, 0));
        push_line(
            svg,
            WIDE,
            place(coordinate, CENTRE, 0, 0),
            place(coordinate, TOP_LEFT, 0, 0),
        );
        assert(svg@ =~= old(svg)@ + Self::point_right_up_text(coordinate));
    }

    /// What [`Self::point_right_down`] writes.
    pub open spec fn point_right_down_text(coordinate: (i32, i32)) -> Seq<char> {
        path_text(WIDE@, seq![at(coordinate, LEFT), at(coordinate, RIGHT)])
            + path_text(WIDE@, seq![at(coordinate, CENTRE), at(coordinate, BOTTOM_LEFT)])
    }

    /// A track from left to right with a branch from the centre to the lower
    /// left corner.
    pub fn point_right_down(coordinate: (i32, i32), svg: &mut String)
        ensures
            final(svg)@ == old(svg)@ + Self::point_right_down_text(coordinate),
    {
        push_line(svg, WIDE, place(coordinate, LEFT, 0, 0), place(coordinate, RIGHT, 0, 0));
        push_line(
            svg,
            WIDE,
            place(coordinate, CENTRE, 0, 0),
            place(coordinate, BOTTOM_LEFT, 0, 0),
        );
        assert(svg@ =~= old(svg)@ + Self::point_right_down_text(coordinate));
    }

    /// What [`Self::y_point_left`] writes.
    pub open spec fn y_point_left_text(coordinate: (i32, i32)) -> Seq<char> {
        path_text(
            WIDE@,
            seq![
                at(coordinate, LEFT),
                at(coordinate, CENTRE),
                at(coordinate, TOP_RIGHT),
            ],
        )
            + path_text(WIDE@, seq![at(coordinate, CENTRE), at(coordinate, BOTTOM_RIGHT)])
    }

    /// A track from the left that forks to the two corners on the right.
    pub fn y_point_left(coordinate: (i32, i32), svg: &mut String)
        ensures
            final(svg)@ == old(svg)@ + Self::y_point_left_text(coordinate),
    {
        push_bend(
            svg,
            WIDE,
            place(coordinate, LEFT, 0, 0),
            place(coordinate, CENTRE, 0, 0),
            place(coordinate, TOP_RIGHT, 0, 0),
        );
        push_line(
            svg,
            WIDE,
            place(coordinate, CENTRE, 0, 0),
            place(coordinate, BOTTOM_RIGHT, 0, 0),
        );
        assert(svg@ =~= old(svg)@ + Self::y_point_left_text(coordinate));
    }

    /// What [`Self::y_point_right`] writes.
    pub open spec fn y_point_right_text(coordinate: (i32, i32)) -> Seq<char> {
        path_text(
            WIDE@,
            seq![
                at(coordinate, RIGHT),
                at(coordinate, CENTRE),
                at(coordinate, TOP_LEFT),
            ],
        )
            + path_text(WIDE@, seq![at(coordinate, CENTRE), at(coordinate, BOTTOM_LEFT)])
    }

    /// A track from the right that forks to the two corners on the left.
    pub fn y_point_right(coordinate: (i32, i32), svg: &mut String)
        ensures
            final(svg)@ == old(svg)@ + Self::y_point_right_text(coordinate),
    {
        push_bend(
            svg,
            WIDE,
            place(coordinate, RIGHT, 0, 0),
            place(coordinate, CENTRE, 0, 0),
            place(coordinate, TOP_LEFT, 0, 0),
        );
        push_line(
            svg,
            WIDE,
            place(coordinate, CENTRE, 0, 0),
            place(coordinate, BOTTOM_LEFT, 0, 0),
        );
        assert(svg@ =~= old(svg)@ + Self::y_point_right_text(coordinate));
    }

    /// What [`Self::single_slip_point_up_up`] writes.
    pub open spec fn single_slip_point_up_up_text(coordinate: (i32, i32)) -> Seq<char> {
        Self::crossing_up_text(coordinate)
            + path_text(
            THIN@,
            seq![
                shifted(at(coordinate, TOP_RIGHT), -5, 5),
                shifted(at(coordinate, LEFT), 5, 0),
            ],
        )
    }

    /// The crossing with a rising diagonal, and a connection from the upper
    /// right to the left.
    pub fn single_slip_point_up_up(coordinate: (i32, i32), svg: &mut String)
        ensures
            final(svg)@ == old(svg)@ + Self::single_slip_point_up_up_text(coordinate),
    {
        Self::crossing_up(coordinate, svg);
        push_line(
            svg,
            THIN,
            place(coordinate, TOP_RIGHT, -5, 5),
            place(coordinate, LEFT, 5, 0),
        );
        assert(svg@ =~= old(svg)@ + Self::single_slip_point_up_up_text(coordinate));
    }

    /// What [`Self::single_slip_point_up_down`] writes.
    pub open spec fn single_slip_point_up_down_text(coordinate: (i32, i32)) -> Seq<char> {
        Self::crossing_up_text(coordinate)
            + path_text(
            THIN@,
            seq![
                shifted(at(coordinate, BOTTOM_LEFT), 5, -5),
                shifted(at(coordinate, RIGHT), -5, 0),
            ],
        )
    }

    /// The crossing with a rising diagonal, and a connection from the lower
    /// left to the right.
    pub fn single_slip_point_up_down(coordinate: (i32, i32), svg: &mut String)
        ensures
            final(svg)@ == old(svg)@ + Self::single_slip_point_up_down_text(coordinate),
    {
        Self::crossing_up(coordinate, svg);
        push_line(
            svg,
            THIN,
            place(coordinate, BOTTOM_LEFT, 5, -5),
            place(coordinate, RIGHT, -5, 0),
        );
        assert(svg@ =~= old(svg)@ + Self::single_slip_point_up_down_text(coordinate));
    }

    /// What [`Self::single_slip_point_down_up`] writes.
    pub open spec fn single_slip_point_down_up_text(coordinate: (i32, i32)) -> Seq<char> {
        Self::crossing_down_text(coordinate)
            + path_text(
            THIN@,
            seq![
                shifted(at(coordinate, TOP_LEFT), 5, 5),
                shifted(at(coordinate, RIGHT), -5, 0),
            ],
        )
    }

    /// The crossing with a falling diagonal, and a connection from the upper
    /// left to the right.
    pub fn single_slip_point_down_up(coordinate: (i32, i32), svg: &mut String)
        ensures
            final(svg)@ == old(svg)@ + Self::single_slip_point_down_up_text(coordinate),
    {
        Self::crossing_down(coordinate, svg);
        push_line(
            svg,
            THIN,
            place(coordinate, TOP_LEFT, 5, 5),
            place(coordinate, RIGHT, -5, 0),
        );
        assert(svg@ =~= old(svg)@ + Self::single_slip_point_down_up_text(coordinate));
    }

    /// What [`Self::single_slip_point_down_down`] writes.
    pub open spec fn single_slip_point_down_down_text(coordinate: (i32, i32)) -> Seq<char> {
        Self::crossing_down_text(coordinate)
            + path_text(
            THIN@,
            seq![
                shifted(at(coordinate, BOTTOM_RIGHT), -5, -5),
                shifted(at(coordinate, LEFT), 5, 0),
            ],
        )
    }

    /// The crossing with a falling diagonal, and a connection from the lower
    /// right to the left.
    pub fn single_slip_point_down_down(coordinate: (i32, i32), svg: &mut String)
        ensures
            final(svg)@ == old(svg)@ + Self::single_slip_point_down_down_text(coordinate),
    {
        Self::crossing_down(coordinate, svg);
        push_line(
            svg,
            THIN,
            place(coordinate, BOTTOM_RIGHT, -5, -5),
            place(coordinate, LEFT, 5, 0),
        );
        assert(svg@ =~= old(svg)@ + Self::single_slip_point_down_down_text(coordinate));
    }

    /// What [`Self::double_slip_point_up`] writes.
    pub open spec fn double_slip_point_up_text(coordinate: (i32, i32)) -> Seq<char> {
        Self::crossing_up_text(coordinate)
            + path_text(
            THIN@,
            seq![
                shifted(at(coordinate, TOP_RIGHT), -5, 5),
                shifted(at(coordinate, LEFT), 5, 0),
            ],
        )
            + path_text(
            THIN@,
            seq![
                shifted(at(coordinate, BOTTOM_LEFT), 5, -5),
                shifted(at(coordinate, RIGHT), -5, 0),
            ],
        )
    }

    /// The crossing with a rising diagonal, and both connections.
    pub fn double_slip_point_up(coordinate: (i32, i32), svg: &mut String)
        ensures
            final(svg)@ == old(svg)@ + Self::double_slip_point_up_text(coordinate),
    {
        Self::crossing_up(coordinate, svg);
        push_line(
            svg,
            THIN,
            place(coordinate, TOP_RIGHT, -5, 5),
            place(coordinate, LEFT, 5, 0),
        );
        push_line(
            svg,
            THIN,
            place(coordinate, BOTTOM_LEFT, 5, -5),
            place(coordinate, RIGHT, -5, 0),
        );
        assert(svg@ =~= old(svg)@ + Self::double_slip_point_up_text(coordinate));
    }

    /// What [`Self::double_slip_point_down`] writes.
    pub open spec fn double_slip_point_down_text(coordinate: (i32, i32)) -> Seq<char> {
        Self::crossing_down_text(coordinate)
            + path_text(
            THIN@,
            seq![
                shifted(at(coordinate, TOP_LEFT), 5, 5),
                shifted(at(coordinate, RIGHT), -5, 0),
            ],
        )
            + path_text(
            THIN@,
            seq![
                shifted(at(coordinate, BOTTOM_RIGHT), -5, -5),
                shifted(at(coordinate, LEFT), 5, 0),
            ],
        )
    }

    /// The crossing with a falling diagonal, and both connections.
    pub fn double_slip_point_down(coordinate: (i32, i32), svg: &mut String)
        ensures
            final(svg)@ == old(svg)@ + Self::double_slip_point_down_text(coordinate),
    {
        Self::crossing_down(coordinate, svg);
        push_line(
            svg,
            THIN,
            place(coordinate, TOP_LEFT, 5, 5),
            place(coordinate, RIGHT, -5, 0),
        );
        push_line(
            svg,
            THIN,
            place(coordinate, BOTTOM_RIGHT, -5, -5),
            place(coordinate, LEFT, 5, 0),
        );
        assert(svg@ =~= old(svg)@ + Self::double_slip_point_down_text(coordinate));
    }
}

} // verus!
