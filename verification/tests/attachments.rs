use bevy_terrain::attachment::{
    Attachment, AttachmentConfig, AttachmentData, AttachmentFormat, AttachmentLabel, TextureFormat,
};

#[test]
fn labels_have_names() {
    assert_eq!(AttachmentLabel::Height.name(), "height");
    assert_eq!(AttachmentLabel::Custom("albedo".to_string()).name(), "albedo");
    assert_eq!(AttachmentLabel::Empty(0).name(), "empty_a");
    assert_eq!(AttachmentLabel::Empty(7).name(), "empty_h");
    assert_eq!(AttachmentLabel::Empty(257).name(), "empty_b");
}

#[test]
fn labels_are_parsed_without_white_space() {
    assert_eq!(" height\n".parse::<AttachmentLabel>().unwrap(), AttachmentLabel::Height);
    assert_eq!(
        "\t my layer ".parse::<AttachmentLabel>().unwrap(),
        AttachmentLabel::Custom("my layer".to_string())
    );
    assert_eq!(
        "Height".parse::<AttachmentLabel>().unwrap(),
        AttachmentLabel::Custom("Height".to_string())
    );
    assert_eq!("".parse::<AttachmentLabel>().unwrap(), AttachmentLabel::Custom(String::new()));
    assert_eq!(AttachmentLabel::default(), AttachmentLabel::Height);
}

#[test]
fn formats_are_parsed() {
    let names = [
        ("rg8u", AttachmentFormat::Rgb8U),
        ("rgba8u", AttachmentFormat::Rgba8U),
        ("rgba8u_linear", AttachmentFormat::Rgba8ULinear),
        ("r8u", AttachmentFormat::R8U),
        ("r16u", AttachmentFormat::R16U),
        ("r16i", AttachmentFormat::R16I),
        (" r32f ", AttachmentFormat::R32F),
    ];
    for (name, format) in names {
        assert_eq!(name.parse::<AttachmentFormat>().ok(), Some(format));
    }
    assert!("rg16u".parse::<AttachmentFormat>().is_err());
    assert!("R8U".parse::<AttachmentFormat>().is_err());
    assert!("".parse::<AttachmentFormat>().is_err());
}

#[test]
fn formats_have_textures() {
    assert_eq!(AttachmentFormat::Rgb8U.render_format(), TextureFormat::Rgba8UnormSrgb);
    assert_eq!(AttachmentFormat::Rgba8ULinear.render_format(), TextureFormat::Rgba8Unorm);
    assert_eq!(AttachmentFormat::Rgba8ULinear.processing_format(), TextureFormat::Rgba8Unorm);
    assert_eq!(AttachmentFormat::R16I.render_format(), TextureFormat::R16Snorm);
    assert_eq!(AttachmentFormat::R16U.processing_format(), TextureFormat::R16Uint);
    assert_eq!(AttachmentFormat::R32F.render_format(), TextureFormat::R32Float);
    assert_eq!(AttachmentFormat::Rgb8U.pixel_size(), 4);
    assert_eq!(AttachmentFormat::R8U.pixel_size(), 1);
    assert_eq!(AttachmentFormat::R16U.pixel_size(), 2);
    assert_eq!(AttachmentFormat::Rg16U.pixel_size(), 4);
}

#[test]
fn configs_know_their_sizes() {
    let config = AttachmentConfig::default();
    assert_eq!(config.texture_size, 512);
    assert_eq!(config.border_size, 2);
    assert_eq!(config.mip_level_count, 2);
    assert!(!config.mask);
    assert_eq!(config.format, AttachmentFormat::Rgba8U);
    assert_eq!(config.center_size(), 508);
    assert_eq!(config.offset_size(), 510);
}

#[test]
fn attachments_are_found_below_the_assets() {
    let config = AttachmentConfig { texture_size: 32, border_size: 4, ..AttachmentConfig::default() };
    let attachment = Attachment::new(&config, "assets/terrains/planar");
    assert_eq!(attachment.path, "terrains/planar");
    assert_eq!(attachment.texture_size, 32);
    assert_eq!(attachment.center_size, 24);
    assert_eq!(attachment.border_size, 4);
    assert_eq!(Attachment::new(&config, "terrains/planar").path, "terrains/planar");
}

#[test]
fn pixels_are_read_from_bytes() {
    let AttachmentData::Rgba8U(pixels) =
        AttachmentData::from_bytes(&[1, 2, 3, 4, 5, 6], AttachmentFormat::Rgb8U)
    else {
        panic!()
    };
    assert_eq!(pixels, vec![[1, 2, 3, 255], [4, 5, 6, 255]]);

    let AttachmentData::R16U(pixels) =
        AttachmentData::from_bytes(&[1, 2, 255, 254], AttachmentFormat::R16U)
    else {
        panic!()
    };
    assert_eq!(pixels, vec![u16::from_ne_bytes([1, 2]), u16::from_ne_bytes([255, 254])]);

    let AttachmentData::R16I(pixels) =
        AttachmentData::from_bytes(&[1, 2, 255, 254], AttachmentFormat::R16I)
    else {
        panic!()
    };
    assert_eq!(pixels, vec![i16::from_ne_bytes([1, 2]), i16::from_ne_bytes([255, 254])]);

    let AttachmentData::Rg16U(pixels) =
        AttachmentData::from_bytes(&[1, 2, 3, 4], AttachmentFormat::Rg16U)
    else {
        panic!()
    };
    assert_eq!(pixels, vec![[u16::from_ne_bytes([1, 2]), u16::from_ne_bytes([3, 4])]]);

    let AttachmentData::R32F(pixels) =
        AttachmentData::from_bytes(&1.5f32.to_ne_bytes(), AttachmentFormat::R32F)
    else {
        panic!()
    };
    assert_eq!(pixels, vec![1.5f32.to_bits()]);

    let AttachmentData::R8U(pixels) = AttachmentData::from_bytes(&[7, 8], AttachmentFormat::R8U)
    else {
        panic!()
    };
    assert_eq!(pixels, vec![7, 8]);

    let AttachmentData::Rgba8U(pixels) =
        AttachmentData::from_bytes(&[1, 2, 3, 4], AttachmentFormat::Rgba8ULinear)
    else {
        panic!()
    };
    assert_eq!(pixels, vec![[1, 2, 3, 4]]);
}

#[test]
fn pixels_keep_their_bytes() {
    let bytes: Vec<u8> = (0..24).collect();
    let formats = [
        AttachmentFormat::Rgba8U,
        AttachmentFormat::Rgba8ULinear,
        AttachmentFormat::R8U,
        AttachmentFormat::R16U,
        AttachmentFormat::R16I,
        AttachmentFormat::Rg16U,
        AttachmentFormat::R32F,
    ];
    for format in formats {
        assert_eq!(AttachmentData::from_bytes(&bytes, format).bytes(), &bytes[..]);
    }
    assert_eq!(AttachmentData::R16U(vec![0x1234]).bytes(), &0x1234u16.to_ne_bytes()[..]);
    assert_eq!(AttachmentData::R32F(vec![0x12345678]).bytes(), &0x12345678u32.to_ne_bytes()[..]);
}

#[test]
fn unaligned_bytes_are_read() {
    let bytes = [0u8, 1, 2, 3, 4];
    let AttachmentData::R16U(pixels) =
        AttachmentData::from_bytes(&bytes[1..], AttachmentFormat::R16U)
    else {
        panic!()
    };
    assert_eq!(pixels, vec![u16::from_ne_bytes([1, 2]), u16::from_ne_bytes([3, 4])]);
}
