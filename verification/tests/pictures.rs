use overlands_agent::config::LOOK_WARMUP_FRAMES;
use overlands_agent::look::{
    advance, encode_png, is_picture, not_ready, picture_name, pictures_to_trim, readback_landed,
    rgb_of, LookNext, LookProgress, LookStage,
};

/// A readback of the wrong size is refused rather than written as a
/// sheared picture; one of the right size comes back as the PNG of it,
/// alpha dropped.
#[test]
fn a_readback_becomes_an_rgb_png_of_its_own_size() {
    let refused = encode_png(&[0; 16], 64, 64).expect_err("refused");
    assert!(refused.contains("bytes"), "{refused}");
    assert_eq!(
        refused,
        "the readback is 16 bytes, not the 16384 a 64x64 picture has"
    );

    let rgba: Vec<u8> = (0..64 * 2).flat_map(|i| [i as u8, 7, 9, 255]).collect();
    let png = encode_png(&rgba, 64, 2).expect("encoded");
    let decoded = image::load_from_memory(&png).expect("a PNG");
    assert_eq!((decoded.width(), decoded.height()), (64, 2));
    let rgb = decoded.as_rgb8().expect("RGB, not RGBA");
    assert_eq!(rgb.get_pixel(5, 1).0, [69, 7, 9]);
}

#[test]
fn rgb_drops_every_fourth_byte() {
    assert_eq!(rgb_of(&[1, 2, 3, 4, 5, 6, 7, 8]), vec![1, 2, 3, 5, 6, 7]);
    assert_eq!(rgb_of(&[1, 2, 3]), Vec::<u8>::new());
}

/// The agent's own directory keeps the newest pictures; anything else in
/// it is left alone.
#[test]
fn old_pictures_are_trimmed_and_nothing_else() {
    let names: Vec<String> = ["look-1000.png", "look-1003.png", "notes.txt", "look-1001.png", "look-1002.png"]
        .iter()
        .map(|s| s.to_string())
        .collect();
    assert_eq!(
        pictures_to_trim(&names, 2),
        vec!["look-1000.png".to_owned(), "look-1001.png".to_owned()]
    );
    assert!(pictures_to_trim(&names, 4).is_empty());
    assert!(pictures_to_trim(&names, 9).is_empty());
}

#[test]
fn a_picture_is_named_by_the_time_it_was_taken() {
    assert_eq!(picture_name(1_700_000_000_123), "look-1700000000123.png");
    assert_eq!(picture_name(-5), "look--5.png");
    assert!(is_picture("look-1.png"));
    assert!(!is_picture("look-1.jpg"));
    assert!(!is_picture("notes.png"));
}

#[test]
fn a_picture_warms_reads_back_once_and_finishes() {
    let mut p = LookProgress::new();
    for _ in 0..LOOK_WARMUP_FRAMES {
        let (q, next) = advance(p, false);
        assert_eq!(next, LookNext::Wait);
        p = q;
    }
    let (q, next) = advance(p, false);
    assert_eq!(next, LookNext::Read);
    assert_eq!(q.stage, LookStage::Reading { landed: false });
    let (q, next) = advance(q, false);
    assert_eq!(next, LookNext::Wait, "not read back twice");
    let q = readback_landed(q);
    let (q, next) = advance(q, false);
    assert_eq!(next, LookNext::Finish);
    assert_eq!(q.frames, LOOK_WARMUP_FRAMES + 3);
}

#[test]
fn a_picture_that_never_comes_is_given_up() {
    let (_, next) = advance(LookProgress::new(), true);
    assert_eq!(next, LookNext::GiveUp);
    assert_eq!(not_ready(), "the picture was not ready within 30 s");
}
