//! Text directions and their behaviour under clockwise page rotation.

use vstd::prelude::*;

verus! {

/// Dominant reading direction of a glyph or run of text.
#[derive(Debug, Clone, Copy, PartialEq, Eq, Structural)]
pub enum TextDirection {
    /// Left to right.
    Ltr,
    /// Right to left.
    Rtl,
    /// Top to bottom.
    Ttb,
    /// Bottom to top.
    Btt,
}

/// The direction obtained by turning `dir` clockwise by a quarter turn.
pub open spec fn quarter_turn(dir: TextDirection) -> TextDirection {
    match dir {
        TextDirection::Ltr => TextDirection::Ttb,
        TextDirection::Ttb => TextDirection::Rtl,
        TextDirection::Rtl => TextDirection::Btt,
        TextDirection::Btt => TextDirection::Ltr,
    }
}

/// `dir` turned clockwise by `n` quarter turns.
pub open spec fn quarter_turns(dir: TextDirection, n: nat) -> TextDirection
    decreases n,
{
    if n == 0 {
        dir
    } else {
        quarter_turn(quarter_turns(dir, (n - 1) as nat))
    }
}

/// The direction a page rotation of `rotation` degrees gives `dir`: 90, 180
/// and 270 turn it by one, two and three quarter turns; every other value
/// leaves it unchanged.
pub open spec fn rotated_direction(dir: TextDirection, rotation: i32) -> TextDirection {
    if rotation == 90 {
        quarter_turns(dir, 1)
    } else if rotation == 180 {
        quarter_turns(dir, 2)
    } else if rotation == 270 {
        quarter_turns(dir, 3)
    } else {
        dir
    }
}

/// Rotate a text direction by the page rotation angle (clockwise).
pub fn rotate_direction(dir: TextDirection, rotation: i32) -> (res: TextDirection)
    ensures
        res == rotated_direction(dir, rotation),
{
    proof {
        reveal_with_fuel(quarter_turns, 4);
    }
    match rotation {
        90 => match dir {
            TextDirection::Ltr => TextDirection::Ttb,
            TextDirection::Rtl => TextDirection::Btt,
            TextDirection::Ttb => TextDirection::Rtl,
            TextDirection::Btt => TextDirection::Ltr,
        },
        180 => match dir {
            TextDirection::Ltr => TextDirection::Rtl,
            TextDirection::Rtl => TextDirection::Ltr,
            TextDirection::Ttb => TextDirection::Btt,
            TextDirection::Btt => TextDirection::Ttb,
        },
        270 => match dir {
            TextDirection::Ltr => TextDirection::Btt,
            TextDirection::Rtl => TextDirection::Ttb,
            TextDirection::Ttb => TextDirection::Ltr,
            TextDirection::Btt => TextDirection::Rtl,
        },
        _ => dir,
    }
}

/// The name a direction is exported under: `ltr`, `rtl`, `ttb` or `btt`.
pub open spec fn direction_text(dir: TextDirection) -> Seq<char> {
    match dir {
        TextDirection::Ltr => "ltr"@,
        TextDirection::Rtl => "rtl"@,
        TextDirection::Ttb => "ttb"@,
        TextDirection::Btt => "btt"@,
    }
}

impl TextDirection {
    /// The name this direction is exported under.
    pub fn name(self) -> (res: &'static str)
        ensures
            res@ == direction_text(self),
    {
        match self {
            TextDirection::Ltr => "ltr",
            TextDirection::Rtl => "rtl",
            TextDirection::Ttb => "ttb",
            TextDirection::Btt => "btt",
        }
    }
}

/// Whether a glyph is upright after a page rotation: quarter turns (90 and
/// 270 degrees) swap upright and rotated text, other angles keep it.
pub open spec fn rotated_upright_spec(upright: bool, rotation: i32) -> bool {
    if rotation == 90 || rotation == 270 {
        !upright
    } else {
        upright
    }
}

/// Whether a glyph is upright after the page is rotated by `rotation` degrees.
pub fn rotated_upright(upright: bool, rotation: i32) -> (res: bool)
    ensures
        res == rotated_upright_spec(upright, rotation),
{
    if rotation == 90 || rotation == 270 {
        !upright
    } else {
        upright
    }
}

/// The direction exported for a word: `ltr` when its first character is
/// upright, `ttb` when that character is rotated, and the word's own
/// direction when it has no characters.
pub open spec fn exported_word_direction_spec(
    first_char_upright: Option<bool>,
    word_direction: TextDirection,
) -> TextDirection {
    match first_char_upright {
        Some(true) => TextDirection::Ltr,
        Some(false) => TextDirection::Ttb,
        None => word_direction,
    }
}

/// The direction exported for a word, from the uprightness of its first
/// character (`None` for a word without characters) and its own direction.
pub fn exported_word_direction(first_char_upright: Option<bool>, word_direction: TextDirection) -> (res:
    TextDirection)
    ensures
        res == exported_word_direction_spec(first_char_upright, word_direction),
{
    match first_char_upright {
        Some(true) => TextDirection::Ltr,
        Some(false) => TextDirection::Ttb,
        None => word_direction,
    }
}

/// The normalized page rotations: a whole number of quarter turns in `0..360`.
pub open spec fn is_normalized_rotation(rotation: int) -> bool {
    rotation == 0 || rotation == 90 || rotation == 180 || rotation == 270
}

/// Four quarter turns bring every direction back to itself.
proof fn lemma_full_turn(dir: TextDirection)
    ensures
        quarter_turns(dir, 4) == dir,
{
    reveal_with_fuel(quarter_turns, 5);
}

/// `n` quarter turns followed by `m` more are `n + m` quarter turns.
proof fn lemma_quarter_turns_add(dir: TextDirection, n: nat, m: nat)
    ensures
        quarter_turns(quarter_turns(dir, n), m) == quarter_turns(dir, n + m),
    decreases m,
{
    if m > 0 {
        lemma_quarter_turns_add(dir, n, (m - 1) as nat);
    }
}

/// Rotating a page by `first` and then by `second` degrees turns its text
/// directions as one rotation by their sum, modulo a full turn.
pub proof fn lemma_rotations_compose(dir: TextDirection, first: i32, second: i32)
    requires
        is_normalized_rotation(first as int),
        is_normalized_rotation(second as int),
    ensures
        rotated_direction(rotated_direction(dir, first), second) == rotated_direction(
            dir,
            ((first + second) % 360) as i32,
        ),
{
    let n = (first / 90) as nat;
    let m = (second / 90) as nat;
    assert(rotated_direction(dir, first) == quarter_turns(dir, n)) by {
        reveal_with_fuel(quarter_turns, 4);
    }
    assert(rotated_direction(quarter_turns(dir, n), second) == quarter_turns(
        quarter_turns(dir, n),
        m,
    )) by {
        reveal_with_fuel(quarter_turns, 4);
    }
    lemma_quarter_turns_add(dir, n, m);
    let total = ((first + second) % 360) as i32;
    if n + m >= 4 {
        lemma_quarter_turns_add(dir, 4, (n + m - 4) as nat);
        lemma_full_turn(dir);
        assert(quarter_turns(dir, n + m) == quarter_turns(dir, (n + m - 4) as nat));
        assert(rotated_direction(dir, total) == quarter_turns(dir, (n + m - 4) as nat)) by {
            reveal_with_fuel(quarter_turns, 4);
        }
    } else {
        assert(rotated_direction(dir, total) == quarter_turns(dir, n + m)) by {
            reveal_with_fuel(quarter_turns, 4);
        }
    }
}

/// Rotating a page by a quarter turn and back (90 then 270 degrees, or 270
/// then 90) restores every direction, and a half turn undoes itself.
pub proof fn lemma_rotation_inverse(dir: TextDirection)
    ensures
        rotated_direction(rotated_direction(dir, 90), 270) == dir,
        rotated_direction(rotated_direction(dir, 270), 90) == dir,
        rotated_direction(rotated_direction(dir, 180), 180) == dir,
{
    lemma_rotations_compose(dir, 90, 270);
    lemma_rotations_compose(dir, 270, 90);
    lemma_rotations_compose(dir, 180, 180);
}

/// A rotation keeps a direction on its axis (horizontal or vertical) exactly
/// when it keeps upright glyphs upright: no turn and a half turn keep both, a
/// quarter turn changes both.
pub proof fn lemma_rotation_axis(dir: TextDirection, rotation: i32)
    requires
        is_normalized_rotation(rotation as int),
    ensures
        ((dir is Ltr || dir is Rtl) == (rotated_direction(dir, rotation) is Ltr
            || rotated_direction(dir, rotation) is Rtl)) == (rotated_upright_spec(true, rotation)),
{
    reveal_with_fuel(quarter_turns, 4);
}

} // verus!
