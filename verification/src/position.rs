//! Where a foreground is placed inside a background, and its numeric code.
use vstd::prelude::*;
use crate::text::str_equals;
use crate::chance::shuffle;

verus! {

/// The nine places at which a foreground image can be pasted onto a background.
#[derive(Debug, Clone, Copy, PartialEq, Eq, Hash, Structural)]
pub enum ROIPosition {
    Left,
    Right,
    Top,
    Bottom,
    TopLeft,
    TopRight,
    BottomLeft,
    BottomRight,
    Center,
}

/// The numeric code of a position, as written into generated file names.
pub open spec fn spec_position_code(p: ROIPosition) -> u8 {
    match p {
        ROIPosition::Center => 0,
        ROIPosition::Left => 1,
        ROIPosition::Right => 2,
        ROIPosition::Top => 3,
        ROIPosition::Bottom => 4,
        ROIPosition::TopLeft => 5,
        ROIPosition::TopRight => 6,
        ROIPosition::BottomLeft => 7,
        ROIPosition::BottomRight => 8,
    }
}

/// The position named by a numeric code; every code outside `1..=8` means the centre.
pub open spec fn spec_position_of_code(n: u8) -> ROIPosition {
    if n == 1 {
        ROIPosition::Left
    } else if n == 2 {
        ROIPosition::Right
    } else if n == 3 {
        ROIPosition::Top
    } else if n == 4 {
        ROIPosition::Bottom
    } else if n == 5 {
        ROIPosition::TopLeft
    } else if n == 6 {
        ROIPosition::TopRight
    } else if n == 7 {
        ROIPosition::BottomLeft
    } else if n == 8 {
        ROIPosition::BottomRight
    } else {
        ROIPosition::Center
    }
}

pub fn position_to_int(p: &ROIPosition) -> (n: u8)
    ensures
        n == spec_position_code(*p),
        n <= 8,
{
    match p {
        ROIPosition::Center => 0,
        ROIPosition::Left => 1,
        ROIPosition::Right => 2,
        ROIPosition::Top => 3,
        ROIPosition::Bottom => 4,
        ROIPosition::TopLeft => 5,
        ROIPosition::TopRight => 6,
        ROIPosition::BottomLeft => 7,
        ROIPosition::BottomRight => 8,
    }
}

pub fn int_to_position(n: u8) -> (p: ROIPosition)
    ensures
        p == spec_position_of_code(n),
{
    match n {
        1 => ROIPosition::Left,
        2 => ROIPosition::Right,
        3 => ROIPosition::Top,
        4 => ROIPosition::Bottom,
        5 => ROIPosition::TopLeft,
        6 => ROIPosition::TopRight,
        7 => ROIPosition::BottomLeft,
        8 => ROIPosition::BottomRight,
        _ => ROIPosition::Center,
    }
}

/// Decoding the code of a position gives that position back.
pub proof fn lemma_code_round_trip(p: ROIPosition)
    ensures
        spec_position_of_code(spec_position_code(p)) == p,
{
}

/// Encoding the position named by a code gives the code back for `0..=8`, and `0`
/// (the centre) for every larger code.
pub proof fn lemma_code_of_decoded(n: u8)
    ensures
        n <= 8 ==> spec_position_code(spec_position_of_code(n)) == n,
        n > 8 ==> spec_position_code(spec_position_of_code(n)) == 0,
{
}

/// Distinct positions have distinct codes.
pub proof fn lemma_code_injective(p: ROIPosition, q: ROIPosition)
    ensures
        spec_position_code(p) == spec_position_code(q) ==> p == q,
{
    lemma_code_round_trip(p);
    lemma_code_round_trip(q);
}


/// The name under which a configuration asks for a position.
pub open spec fn position_name(p: ROIPosition) -> Seq<char> {
    match p {
        ROIPosition::Left => "left"@,
        ROIPosition::Right => "right"@,
        ROIPosition::Top => "top"@,
        ROIPosition::Bottom => "bottom"@,
        ROIPosition::TopLeft => "top-left"@,
        ROIPosition::TopRight => "top-right"@,
        ROIPosition::BottomLeft => "bottom-left"@,
        ROIPosition::BottomRight => "bottom-right"@,
        ROIPosition::Center => "center"@,
    }
}

/// The position a configuration string names, if it names one.
pub open spec fn spec_check_position(s: Seq<char>) -> Option<ROIPosition> {
    if s == "left"@ {
        Some(ROIPosition::Left)
    } else if s == "right"@ {
        Some(ROIPosition::Right)
    } else if s == "top"@ {
        Some(ROIPosition::Top)
    } else if s == "bottom"@ {
        Some(ROIPosition::Bottom)
    } else if s == "top-left"@ {
        Some(ROIPosition::TopLeft)
    } else if s == "top-right"@ {
        Some(ROIPosition::TopRight)
    } else if s == "bottom-left"@ {
        Some(ROIPosition::BottomLeft)
    } else if s == "bottom-right"@ {
        Some(ROIPosition::BottomRight)
    } else if s == "center"@ {
        Some(ROIPosition::Center)
    } else {
        None
    }
}

/// The position that a configuration string names (`left`, `top-right`, `center`, ...);
/// nothing for any other string.
pub fn check_position(position: String) -> (r: Option<ROIPosition>)
    ensures
        r == spec_check_position(position@),
{
    let s = position.as_str();
    if str_equals(s, "left") {
        Some(ROIPosition::Left)
    } else if str_equals(s, "right") {
        Some(ROIPosition::Right)
    } else if str_equals(s, "top") {
        Some(ROIPosition::Top)
    } else if str_equals(s, "bottom") {
        Some(ROIPosition::Bottom)
    } else if str_equals(s, "top-left") {
        Some(ROIPosition::TopLeft)
    } else if str_equals(s, "top-right") {
        Some(ROIPosition::TopRight)
    } else if str_equals(s, "bottom-left") {
        Some(ROIPosition::BottomLeft)
    } else if str_equals(s, "bottom-right") {
        Some(ROIPosition::BottomRight)
    } else if str_equals(s, "center") {
        Some(ROIPosition::Center)
    } else {
        None
    }
}

/// Each of the nine names selects its own position, and no other string selects one.
pub proof fn lemma_position_names(p: ROIPosition, s: Seq<char>)
    ensures
        spec_check_position(position_name(p)) == Some(p),
        spec_check_position(s) == Some(p) <==> s == position_name(p),
{
    reveal_strlit("left");
    reveal_strlit("right");
    reveal_strlit("top");
    reveal_strlit("bottom");
    reveal_strlit("top-left");
    reveal_strlit("top-right");
    reveal_strlit("bottom-left");
    reveal_strlit("bottom-right");
    reveal_strlit("center");
    assert("left"@.len() == 4 && "right"@.len() == 5 && "top"@.len() == 3);
    assert("bottom"@.len() == 6 && "center"@.len() == 6 && "top-left"@.len() == 8);
    assert("top-right"@.len() == 9 && "bottom-left"@.len() == 11);
    assert("bottom-right"@.len() == 12);
    assert("bottom"@[0] != "center"@[0]);
}

/// The position chosen by a shuffled list of codes: the one whose code comes first.
pub fn position_of_draw(draw: &Vec<u8>) -> (p: ROIPosition)
    requires
        draw@.len() > 0,
        draw@[0] <= 8,
    ensures
        p == spec_position_of_code(draw@[0]),
        spec_position_code(p) == draw@[0],
{
    match draw[0] {
        0 => ROIPosition::Center,
        1 => ROIPosition::Left,
        2 => ROIPosition::Right,
        3 => ROIPosition::Top,
        4 => ROIPosition::Bottom,
        5 => ROIPosition::TopLeft,
        6 => ROIPosition::TopRight,
        7 => ROIPosition::BottomLeft,
        _ => ROIPosition::BottomRight,
    }
}

/// A position drawn at random: the first of the codes `0..8` after a shuffle.
/// Code 8 is never among them, so the bottom-right corner is never drawn.
pub fn random_roi_position() -> (p: ROIPosition)
    ensures
        spec_position_code(p) < 8,
        p != ROIPosition::BottomRight,
{
    let mut nums: Vec<u8> = Vec::new();
    let mut i: u8 = 0;
    while i < 8
        invariant
            i <= 8,
            nums@.len() == i,
            forall|j: int| 0 <= j < nums@.len() ==> nums@[j] < 8,
        decreases 8 - i,
    {
        nums.push(i);
        i = i + 1;
    }
    let ghost before = nums@;
    shuffle(&mut nums);
    proof {
        broadcast use vstd::seq_lib::group_to_multiset_ensures;

        assert(before.len() == before.to_multiset().len());
        assert(nums@.len() == nums@.to_multiset().len());
    }
    proof {
        broadcast use vstd::seq_lib::group_to_multiset_ensures;

        let first = nums@[0];
        assert(nums@.contains(first));
        assert(nums@.to_multiset().count(first) > 0);
        assert(before.contains(first));
    }
    position_of_draw(&nums)
}

} // verus!
