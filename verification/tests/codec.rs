use cargo_dyndrv::codec::describe_codec;

#[test]
fn codec_version_has_three_numbers() {
    let version = 61 * 65536 + 19 * 256 + 101;
    assert_eq!(
        describe_codec(version, "--enable-shared"),
        "libavcodec version 61.19.101, configured with --enable-shared"
    );
}

#[test]
fn highest_byte_of_codec_version_is_left_out() {
    let version: u32 = 0xff01_0203;
    let bytes = version.to_be_bytes();
    assert_eq!(
        describe_codec(version, ""),
        format!("libavcodec version {}.{}.{}, configured with ", bytes[1], bytes[2], bytes[3])
    );
}
