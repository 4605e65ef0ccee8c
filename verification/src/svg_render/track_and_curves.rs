use vstd::prelude::*;

use crate::svg_render::{
    BOTTOM, BOTTOM_LEFT, BOTTOM_RIGHT, CENTRE, Elements, LEFT, RIGHT, TOP, TOP_LEFT, TOP_RIGHT,
    WIDE, at, path_text, place, push_bend, push_line,
};

verus! {

impl Elements {
    /// What [`Self::track_horizontal`] writes.
    pub open spec fn track_horizontal_text(coordinate: (i32, i32)) -> Seq<char> {
        path_text(WIDE@, seq![at(coordinate, LEFT), at(coordinate, RIGHT)])
    }

    /// A straight track from left to right.
    pub fn track_horizontal(coordinate: (i32, i32), svg: &mut String)
        ensures
            final(svg)@ == old(svg)@ + Self::track_horizontal_text(coordinate),
    {
        push_line(svg, WIDE, place(coordinate, LEFT, 0, 0), place(coordinate, RIGHT, 0, 0));
        assert(svg@ =~= old(svg)@ + Self::track_horizontal_text(coordinate));
    }

    /// What [`Self::track_vertical`] writes.
    pub open spec fn track_vertical_text(coordinate: (i32, i32)) -> Seq<char> {
        path_text(WIDE@, seq![at(coordinate, BOTTOM), at(coordinate, TOP)])
    }

    /// A straight track from the bottom to the top.
    pub fn track_vertical(coordinate: (i32, i32), svg: &mut String)
        ensures
            final(svg)@ == old(svg)@ + Self::track_vertical_text(coordinate),
    {
        push_line(svg, WIDE, place(coordinate, BOTTOM, 0, 0), place(coordinate, TOP, 0, 0));
        assert(svg@ =~= old(svg)@ + Self::track_vertical_text(coordinate));
    }

    /// What [`Self::track_up`] writes.
    pub open spec fn track_up_text(coordinate: (i32, i32)) -> Seq<char> {
        path_text(WIDE@, seq![at(coordinate, BOTTOM_LEFT), at(coordinate, TOP_RIGHT)])
    }

    /// A straight track from the lower left to the upper right corner.
    pub fn track_up(coordinate: (i32, i32), svg: &mut String)
        ensures
            final(svg)@ == old(svg)@ + Self::track_up_text(coordinate),
    {
        push_line(
            svg,
            WIDE,
            place(coordinate, BOTTOM_LEFT, 0, 0),
            place(coordinate, TOP_RIGHT, 0, 0),
        );
        assert(svg@ =~= old(svg)@ + Self::track_up_text(coordinate));
    }

    /// What [`Self::track_down`] writes.
    pub open spec fn track_down_text(coordinate: (i32, i32)) -> Seq<char> {
        path_text(WIDE@, seq![at(coordinate, TOP_LEFT), at(coordinate, BOTTOM_RIGHT)])
    }

    /// A straight track from the upper left to the lower right corner.
    pub fn track_down(coordinate: (i32, i32), svg: &mut String)
        ensures
            final(svg)@ == old(svg)@ + Self::track_down_text(coordinate),
    {
        push_line(
            svg,
            WIDE,
            place(coordinate, TOP_LEFT, 0, 0),
            place(coordinate, BOTTOM_RIGHT, 0, 0),
        );
        assert(svg@ =~= old(svg)@ + Self::track_down_text(coordinate));
    }

    /// What [`Self::curve_left_up`] writes.
    pub open spec fn curve_left_up_text(coordinate: (i32, i32)) -> Seq<char> {
        path_text(
            WIDE@,
            seq![
                at(coordinate, LEFT),
                at(coordinate, CENTRE),
                at(coordinate, TOP_RIGHT),
            ],
        )
    }

    /// A track from the left that bends to the upper right corner.
    pub fn curve_left_up(coordinate: (i32, i32), svg: &mut String)
        ensures
            final(svg)@ == old(svg)@ + Self::curve_left_up_text(coordinate),
    {
        push_bend(
            svg,
            WIDE,
            place(coordinate, LEFT, 0, 0),
            place(coordinate, CENTRE, 0, 0),
            place(coordinate, TOP_RIGHT, 0, 0),
        );
        assert(svg@ =~= old(svg)@ + Self::curve_left_up_text(coordinate));
    }

    /// What [`Self::curve_left_down`] writes.
    pub open spec fn curve_left_down_text(coordinate: (i32, i32)) -> Seq<char> {
        path_text(
            WIDE@,
            seq![
                at(coordinate, LEFT),
                at(coordinate, CENTRE),
                at(coordinate, BOTTOM_RIGHT),
            ],
        )
    }

    /// A track from the left that bends to the lower right corner.
    pub fn curve_left_down(coordinate: (i32, i32), svg: &mut String)
        ensures
            final(svg)@ == old(svg)@ + Self::curve_left_down_text(coordinate),
    {
        push_bend(
            svg,
            WIDE,
            place(coordinate, LEFT, 0, 0),
            place(coordinate, CENTRE, 0, 0),
            place(coordinate, BOTTOM_RIGHT, 0, 0),
        );
        assert(svg@ =~= old(svg)@ + Self::curve_left_down_text(coordinate));
    }

    /// What [`Self::curve_right_up`] writes.
    pub open spec fn curve_right_up_text(coordinate: (i32, i32)) -> Seq<char> {
        path_text(
            WIDE@,
            seq![
                at(coordinate, RIGHT),
                at(coordinate, CENTRE),
                at(coordinate, TOP_LEFT),
            ],
        )
    }

    /// A track from the right that bends to the upper left corner.
    pub fn curve_right_up(coordinate: (i32, i32), svg: &mut String)
        ensures
            final(svg)@ == old(svg)@ + Self::curve_right_up_text(coordinate),
    {
        push_bend(
            svg,
            WIDE,
            place(coordinate, RIGHT, 0, 0),
            place(coordinate, CENTRE, 0, 0),
            place(coordinate, TOP_LEFT, 0, 0),
        );
        assert(svg@ =~= old(svg)@ + Self::curve_right_up_text(coordinate));
    }

    /// What [`Self::curve_right_down`] writes.
    pub open spec fn curve_right_down_text(coordinate: (i32, i32)) -> Seq<char> {
        path_text(
            WIDE@,
            seq![
                at(coordinate, RIGHT),
                at(coordinate, CENTRE),
                at(coordinate, BOTTOM_LEFT),
            ],
        )
    }

    /// A track from the right that bends to the lower left corner.
    pub fn curve_right_down(coordinate: (i32, i32), svg: &mut String)
        ensures
            final(svg)@ == old(svg)@ + Self::curve_right_down_text(coordinate),
    {
        push_bend(
            svg,
            WIDE,
            place(coordinate, RIGHT, 0, 0),
            place(coordinate, CENTRE, 0, 0),
            place(coordinate, BOTTOM_LEFT, 0, 0),
        );
        assert(svg@ =~= old(svg)@ + Self::curve_right_down_text(coordinate));
    }

    /// What [`Self::curve_top_left`] writes.
    pub open spec fn curve_top_left_text(coordinate: (i32, i32)) -> Seq<char> {
        path_text(
            WIDE@,
            seq![
                at(coordinate, TOP),
                at(coordinate, CENTRE),
                at(coordinate, BOTTOM_LEFT),
            ],
        )
    }

    /// A track from the top that bends to the lower left corner.
    pub fn curve_top_left(coordinate: (i32, i32), svg: &mut String)
        ensures
            final(svg)@ == old(svg)@ + Self::curve_top_left_text(coordinate),
    {
        push_bend(
            svg,
            WIDE,
            place(coordinate, TOP, 0, 0),
            place(coordinate, CENTRE, 0, 0),
            place(coordinate, BOTTOM_LEFT, 0, 0),
        );
        assert(svg@ =~= old(svg)@ + Self::curve_top_left_text(coordinate));
    }

    /// What [`Self::curve_top_right`] writes.
    pub open spec fn curve_top_right_text(coordinate: (i32, i32)) -> Seq<char> {
        path_text(
            WIDE@,
            seq![
                at(coordinate, TOP),
                at(coordinate, CENTRE),
                at(coordinate, BOTTOM_RIGHT),
            ],
        )
    }

    /// A track from the top that bends to the lower right corner.
    pub fn curve_top_right(coordinate: (i32, i32), svg: &mut String)
        ensures
            final(svg)@ == old(svg)@ + Self::curve_top_right_text(coordinate),
    {
        push_bend(
            svg,
            WIDE,
            place(coordinate, TOP, 0, 0),
            place(coordinate, CENTRE, 0, 0),
            place(coordinate, BOTTOM_RIGHT, 0, 0),
        );
        assert(svg@ =~= old(svg)@ + Self::curve_top_right_text(coordinate));
    }

    /// What [`Self::curve_bottom_left`] writes.
    pub open spec fn curve_bottom_left_text(coordinate: (i32, i32)) -> Seq<char> {
        path_text(
            WIDE@,
            seq![
                at(coordinate, BOTTOM),
                at(coordinate, CENTRE),
                at(coordinate, TOP_LEFT),
            ],
        )
    }

    /// A track from the bottom that bends to the upper left corner.
    pub fn curve_bottom_left(coordinate: (i32, i32), svg: &mut String)
        ensures
            final(svg)@ == old(svg)@ + Self::curve_bottom_left_text(coordinate),
    {
        push_bend(
            svg,
            WIDE,
            place(coordinate, BOTTOM, 0, 0),
            place(coordinate, CENTRE, 0, 0),
            place(coordinate, TOP_LEFT, 0, 0),
        );
        assert(svg@ =~= old(svg)@ + Self::curve_bottom_left_text(coordinate));
    }

    /// What [`Self::curve_bottom_right`] writes.
    pub open spec fn curve_bottom_right_text(coordinate: (i32, i32)) -> Seq<char> {
        path_text(
            WIDE@,
            seq![
                at(coordinate, BOTTOM),
                at(coordinate, CENTRE),
                at(coordinate, TOP_RIGHT),
            ],
        )
    }

    /// A track from the bottom that bends to the upper right corner.
    pub fn curve_bottom_right(coordinate: (i32, i32), svg: &mut String)
        ensures
            final(svg)@ == old(svg)@ + Self::curve_bottom_right_text(coordinate),
    {
        push_bend(
            svg,
            WIDE,
            place(coordinate, BOTTOM, 0, 0),
            place(coordinate, CENTRE, 0, 0),
            place(coordinate, TOP_RIGHT, 0, 0),
        );
        assert(svg@ =~= old(svg)@ + Self::curve_bottom_right_text(coordinate));
    }
}

} // verus!
