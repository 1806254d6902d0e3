use bytie::dice::{dice_face, dice_url, get_random_dice_number, getdiceurl};

#[test]
fn dice_faces_from_bytes() {
    assert_eq!(dice_face(0), 1);
    assert_eq!(dice_face(5), 6);
    assert_eq!(dice_face(6), 1);
    assert_eq!(dice_face(255), 4);
}

#[test]
fn random_rolls_stay_on_the_die() {
    for _ in 0..200 {
        let n = get_random_dice_number();
        assert!((1..=6).contains(&n));
    }
}

#[test]
fn dice_url_appends_nonce() {
    assert_eq!(
        dice_url(3, 42),
        "https://upload.wikimedia.org/wikipedia/commons/7/70/Dice-3.png?42"
    );
    assert_eq!(
        dice_url(6, 4294967295),
        "https://upload.wikimedia.org/wikipedia/commons/5/5c/Dice-6.png?4294967295"
    );
    assert_eq!(dice_url(9, 0), "It's best not to push your luck too far.?0");
}

#[test]
fn random_dice_url_has_numeric_suffix() {
    let url = getdiceurl(1);
    let prefix = "https://upload.wikimedia.org/wikipedia/commons/c/c5/Dice-1.png?";
    assert!(url.starts_with(prefix));
    let suffix = &url[prefix.len()..];
    assert!(!suffix.is_empty());
    assert!(suffix.parse::<u32>().is_ok());
}
