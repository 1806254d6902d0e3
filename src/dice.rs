//! Dice rolls and the images that show them.
use vstd::prelude::*;
use vstd::string::StringExecFns;
use crate::text::{decimal, decimal_string};

verus! {

/// Relies on `rand::random`, the source of the dice's randomness; nothing is
/// assumed of the value drawn.
pub assume_specification<T>[ rand::random::<T> ]() -> (r: T)
    where
        rand::distributions::Standard: rand::distributions::Distribution<T>,
;

/// The face that a random byte shows.
pub fn dice_face(b: u8) -> (r: u8)
    ensures
        r == b % 6 + 1,
        1 <= r <= 6,
{
    b % 6 + 1
}

/// Draws a number between 1 and 6.
pub fn get_random_dice_number() -> (r: u8)
    ensures
        1 <= r <= 6,
{
    dice_face(rand::random::<u8>())
}

/// The image of a face, or a warning for a number that no face shows.
pub open spec fn face_image(dice_id: u8) -> Seq<char> {
    if dice_id == 1 {
        "https://upload.wikimedia.org/wikipedia/commons/c/c5/Dice-1.png"@
    } else if dice_id == 2 {
        "https://upload.wikimedia.org/wikipedia/commons/1/18/Dice-2.png"@
    } else if dice_id == 3 {
        "https://upload.wikimedia.org/wikipedia/commons/7/70/Dice-3.png"@
    } else if dice_id == 4 {
        "https://upload.wikimedia.org/wikipedia/commons/a/a9/Dice-4.png"@
    } else if dice_id == 5 {
        "https://upload.wikimedia.org/wikipedia/commons/6/6c/Dice-5.png"@
    } else if dice_id == 6 {
        "https://upload.wikimedia.org/wikipedia/commons/5/5c/Dice-6.png"@
    } else {
        "It's best not to push your luck too far."@
    }
}

/// The image of a face with `?` and a number appended, so that no cache
/// serves an earlier roll.
pub open spec fn face_url(dice_id: u8, nonce: u32) -> Seq<char> {
    face_image(dice_id) + "?"@ + decimal(nonce as nat)
}

/// The image of face `dice_id`, made unique by `nonce`.
pub fn dice_url(dice_id: u8, nonce: u32) -> (r: String)
    ensures
        r@ == face_url(dice_id, nonce),
{
    let image = if dice_id == 1 {
        "https://upload.wikimedia.org/wikipedia/commons/c/c5/Dice-1.png"
    } else if dice_id == 2 {
        "https://upload.wikimedia.org/wikipedia/commons/1/18/Dice-2.png"
    } else if dice_id == 3 {
        "https://upload.wikimedia.org/wikipedia/commons/7/70/Dice-3.png"
    } else if dice_id == 4 {
        "https://upload.wikimedia.org/wikipedia/commons/a/a9/Dice-4.png"
    } else if dice_id == 5 {
        "https://upload.wikimedia.org/wikipedia/commons/6/6c/Dice-5.png"
    } else if dice_id == 6 {
        "https://upload.wikimedia.org/wikipedia/commons/5/5c/Dice-6.png"
    } else {
        "It's best not to push your luck too far."
    };
    let mut r = String::from_str(image);
    r.append("?");
    r.append(decimal_string(nonce as usize).as_str());
    r
}

/// The image of face `dice_id`, made unique by a random number.
pub fn getdiceurl(dice_id: u8) -> (r: String)
    ensures
        exists|nonce: u32| r@ == #[trigger] face_url(dice_id, nonce),
{
    dice_url(dice_id, rand::random::<u32>())
}

} // verus!
