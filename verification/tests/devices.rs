use facecrop::camera::{area_of, classify, discrete_sizes_by_area, parse_number, FrameSize, Kind};

#[test]
fn video_node_with_its_number() {
    assert_eq!(classify(b"video0"), Some((Kind::Video, Some(0))));
    assert_eq!(classify(b"video12"), Some((Kind::Video, Some(12))));
}

#[test]
fn every_kind_is_known_by_its_prefix() {
    assert_eq!(classify(b"radio1"), Some((Kind::Radio, Some(1))));
    assert_eq!(classify(b"vbi2"), Some((Kind::Vbi, Some(2))));
    assert_eq!(classify(b"swradio3"), Some((Kind::SwRadio, Some(3))));
    assert_eq!(classify(b"v4l-subdev4"), Some((Kind::Subdev, Some(4))));
    assert_eq!(classify(b"v4l-touch5"), Some((Kind::Touch, Some(5))));
    assert_eq!(classify(b"media6"), Some((Kind::Media, Some(6))));
}

#[test]
fn node_without_a_number() {
    assert_eq!(classify(b"video"), Some((Kind::Video, None)));
    assert_eq!(classify(b"video-x"), Some((Kind::Video, None)));
    assert_eq!(classify(b"media1a"), Some((Kind::Media, None)));
    assert_eq!(classify(b"vbi 1"), Some((Kind::Vbi, None)));
}

#[test]
fn other_names_are_no_devices() {
    assert_eq!(classify(b""), None);
    assert_eq!(classify(b"vide"), None);
    assert_eq!(classify(b"tty0"), None);
    assert_eq!(classify(b"Video0"), None);
    assert_eq!(classify(b"v4l-"), None);
    assert_eq!(classify(b"xvideo0"), None);
}

#[test]
fn number_may_carry_a_plus_sign_and_leading_zeros() {
    assert_eq!(parse_number(b"+7", 0), Some(7));
    assert_eq!(parse_number(b"007", 0), Some(7));
    assert_eq!(parse_number(b"+", 0), None);
    assert_eq!(parse_number(b"++7", 0), None);
    assert_eq!(parse_number(b"-7", 0), None);
    assert_eq!(parse_number(b"7+", 0), None);
    assert_eq!(parse_number(b"", 0), None);
    assert_eq!(parse_number(b"ab42", 2), Some(42));
    assert_eq!(parse_number(b"ab42", 4), None);
}

#[test]
fn number_must_fit_u32() {
    assert_eq!(parse_number(b"4294967295", 0), Some(u32::MAX));
    assert_eq!(parse_number(b"4294967296", 0), None);
    assert_eq!(parse_number(b"99999999999999999999999999", 0), None);
    assert_eq!(parse_number(b"00000000000000000000000001", 0), Some(1));
    assert_eq!(classify(b"video4294967296"), Some((Kind::Video, None)));
}

#[test]
fn numbers_read_as_the_standard_parser_reads_them() {
    for text in ["0", "10", "+10", "-1", "", "+", "1 ", " 1", "4294967295", "4294967296", "1_0", "0x10"] {
        assert_eq!(parse_number(text.as_bytes(), 0), text.parse::<u32>().ok());
    }
}

#[test]
fn kind_names_are_the_prefixes() {
    let kinds = [
        (Kind::Video, "video"),
        (Kind::Radio, "radio"),
        (Kind::Vbi, "vbi"),
        (Kind::SwRadio, "swradio"),
        (Kind::Subdev, "v4l-subdev"),
        (Kind::Touch, "v4l-touch"),
        (Kind::Media, "media"),
    ];
    for (kind, name) in kinds {
        assert_eq!(kind.name(), name);
        assert_eq!(classify(name.as_bytes()), Some((kind, None)));
    }
}

#[test]
fn area_is_width_times_height() {
    assert_eq!(area_of((640, 480)), 307_200);
    assert_eq!(area_of((0, 480)), 0);
    assert_eq!(area_of((u32::MAX, u32::MAX)), 18_446_744_065_119_617_025);
}

#[test]
fn discrete_sizes_come_smallest_area_first() {
    let sizes = [
        FrameSize::Discrete(1280, 720),
        FrameSize::Stepwise,
        FrameSize::Discrete(320, 240),
        FrameSize::Discrete(1920, 1080),
        FrameSize::Discrete(640, 480),
    ];
    assert_eq!(
        discrete_sizes_by_area(&sizes),
        vec![(320, 240), (640, 480), (1280, 720), (1920, 1080)]
    );
}

#[test]
fn sizes_of_equal_area_keep_their_order() {
    let sizes = [
        FrameSize::Discrete(600, 400),
        FrameSize::Discrete(400, 600),
        FrameSize::Discrete(10, 10),
        FrameSize::Discrete(800, 300),
        FrameSize::Discrete(400, 600),
    ];
    assert_eq!(
        discrete_sizes_by_area(&sizes),
        vec![(10, 10), (600, 400), (400, 600), (800, 300), (400, 600)]
    );
}

#[test]
fn no_discrete_sizes_give_an_empty_list() {
    assert!(discrete_sizes_by_area(&[]).is_empty());
    assert!(discrete_sizes_by_area(&[FrameSize::Stepwise, FrameSize::Stepwise]).is_empty());
}
