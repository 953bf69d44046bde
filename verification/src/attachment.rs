//! The attachments of a terrain: layers of raster data that every tile carries.

use vstd::prelude::*;
use vstd::string::*;
use crate::byte_cast::{
    bytes_of_i16, bytes_of_u16, bytes_of_u16_pairs, bytes_of_u32, bytes_of_u8_quads,
    bytes_of_words16, bytes_of_words32, bytes_round_trip_through_words16,
    bytes_round_trip_through_words32, collect_i16, collect_u16, collect_u16_pairs, collect_u32,
    collect_u8_quads, flat_pairs, flat_quads, signed16, signed_words16, unsigned_words16, words16,
    words32, ByteOrder,
};
use crate::coordinate::TileCoordinate;
use crate::text::{has_prefix, is_white_space, same_text, trim, trimmed};

verus! {

/// The name of an attachment.
#[derive(Debug, PartialEq, Eq, Hash)]
pub enum AttachmentLabel {
    /// The height of the surface.
    Height,
    /// A layer named by the user.
    Custom(String),
    /// The unused binding with the given number.
    Empty(usize),
}

/// The mathematical view of an [`AttachmentLabel`].
pub enum LabelView {
    Height,
    Custom(Seq<char>),
    Empty(usize),
}

/// Whether an unused binding has a letter of its own.
pub open spec fn has_letter(number: usize) -> bool {
    number % 256 + 97 <= 255
}

impl LabelView {
    /// The name of the attachment in the shaders.
    pub open spec fn name(self) -> Seq<char> {
        match self {
            LabelView::Height => "height"@,
            LabelView::Custom(name) => name,
            LabelView::Empty(number) => "empty_"@.push((number % 256 + 97) as u8 as char),
        }
    }

    /// Whether [`AttachmentLabel::name`] is defined.
    pub open spec fn has_name(self) -> bool {
        self matches LabelView::Empty(number) ==> has_letter(number)
    }

    /// The label that a name stands for.
    pub open spec fn parsed(text: Seq<char>) -> LabelView {
        if trimmed(text) == "height"@ {
            LabelView::Height
        } else {
            LabelView::Custom(trimmed(text))
        }
    }
}

impl View for AttachmentLabel {
    type V = LabelView;

    open spec fn view(&self) -> LabelView {
        match self {
            AttachmentLabel::Height => LabelView::Height,
            AttachmentLabel::Custom(name) => LabelView::Custom(name@),
            AttachmentLabel::Empty(number) => LabelView::Empty(*number),
        }
    }
}

impl Clone for AttachmentLabel {
    fn clone(&self) -> (label: Self)
        ensures
            label == *self,
    {
        match self {
            AttachmentLabel::Height => AttachmentLabel::Height,
            AttachmentLabel::Custom(name) => AttachmentLabel::Custom(name.clone()),
            AttachmentLabel::Empty(number) => AttachmentLabel::Empty(*number),
        }
    }
}

impl Default for AttachmentLabel {
    fn default() -> (label: Self)
        ensures
            label is Height,
    {
        AttachmentLabel::Height
    }
}

impl AttachmentLabel {
    /// The name of the attachment in the shaders: `height`, the custom name, or `empty_` and a
    /// letter counted from `a`.
    pub fn name(&self) -> (name: String)
        requires
            self@.has_name(),
        ensures
            name@ == self@.name(),
    {
        match self {
            AttachmentLabel::Height => "height".to_owned(),
            AttachmentLabel::Custom(name) => name.clone(),
            AttachmentLabel::Empty(number) => {
                let mut name = "empty_".to_owned();
                let letter: u8 = (*number % 256) as u8 + 97;
                name.push(letter as char);
                name
            },
        }
    }

}

impl std::str::FromStr for AttachmentLabel {
    type Err = ParseError;

    /// The label with the given name; white space around the name does not count.
    fn from_str(text: &str) -> (label: Result<Self, ParseError>)
        ensures
            label is Ok,
            label->Ok_0@ == LabelView::parsed(text@),
    {
        let name = trim(text);
        if same_text(name, "height") {
            Ok(AttachmentLabel::Height)
        } else {
            Ok(AttachmentLabel::Custom(name.to_owned()))
        }
    }
}

/// The error of a text that names nothing.
#[derive(Clone, Copy, Debug, PartialEq, Eq)]
pub struct ParseError;

/// The data format of an attachment.
#[derive(Clone, Copy, Debug, PartialEq, Eq, Structural, Hash)]
pub enum AttachmentFormat {
    /// Three channels of 8 bit unsigned integers.
    Rgb8U,
    /// Four channels of 8 bit unsigned integers.
    Rgba8U,
    /// Four channels of 8 bit unsigned integers without the sRGB transfer function, for packed data
    /// that is not a color.
    Rgba8ULinear,
    /// One channel of 8 bit unsigned integers.
    R8U,
    /// One channel of 16 bit unsigned integers.
    R16U,
    /// One channel of 16 bit signed integers.
    R16I,
    /// Two channels of 16 bit unsigned integers.
    Rg16U,
    /// One channel of 32 bit floating point numbers.
    R32F,
}

/// The formats of the textures that hold attachments.
#[derive(Clone, Copy, Debug, PartialEq, Eq, Structural, Hash)]
pub enum TextureFormat {
    Rgba8UnormSrgb,
    Rgba8Unorm,
    R8Unorm,
    R16Unorm,
    R16Snorm,
    R16Uint,
    Rg16Unorm,
    Rg16Uint,
    R32Float,
}

impl TextureFormat {
    /// The size of a texel in bytes.
    pub open spec fn texel_size(self) -> int {
        match self {
            TextureFormat::Rgba8UnormSrgb => 4,
            TextureFormat::Rgba8Unorm => 4,
            TextureFormat::R8Unorm => 1,
            TextureFormat::R16Unorm => 2,
            TextureFormat::R16Snorm => 2,
            TextureFormat::R16Uint => 2,
            TextureFormat::Rg16Unorm => 4,
            TextureFormat::Rg16Uint => 4,
            TextureFormat::R32Float => 4,
        }
    }

    /// The same format without the sRGB transfer function.
    pub open spec fn linear(self) -> TextureFormat {
        if self is Rgba8UnormSrgb {
            TextureFormat::Rgba8Unorm
        } else {
            self
        }
    }
}

/// The format that a text names, without white space around it.
pub open spec fn named_format(name: Seq<char>) -> Option<AttachmentFormat> {
    if name == "rg8u"@ {
        Some(AttachmentFormat::Rgb8U)
    } else if name == "rgba8u"@ {
        Some(AttachmentFormat::Rgba8U)
    } else if name == "rgba8u_linear"@ {
        Some(AttachmentFormat::Rgba8ULinear)
    } else if name == "r8u"@ {
        Some(AttachmentFormat::R8U)
    } else if name == "r16u"@ {
        Some(AttachmentFormat::R16U)
    } else if name == "r16i"@ {
        Some(AttachmentFormat::R16I)
    } else if name == "r32f"@ {
        Some(AttachmentFormat::R32F)
    } else {
        None
    }
}

impl AttachmentFormat {
    /// The format in which the shaders that draw the terrain see the attachment.
    pub open spec fn spec_render_format(self) -> TextureFormat {
        match self {
            AttachmentFormat::Rgb8U => TextureFormat::Rgba8UnormSrgb,
            AttachmentFormat::Rgba8U => TextureFormat::Rgba8UnormSrgb,
            AttachmentFormat::Rgba8ULinear => TextureFormat::Rgba8Unorm,
            AttachmentFormat::R8U => TextureFormat::R8Unorm,
            AttachmentFormat::R16U => TextureFormat::R16Unorm,
            AttachmentFormat::R16I => TextureFormat::R16Snorm,
            AttachmentFormat::Rg16U => TextureFormat::Rg16Unorm,
            AttachmentFormat::R32F => TextureFormat::R32Float,
        }
    }

    /// The format in which the texture of the attachment is created and processed.
    pub open spec fn spec_processing_format(self) -> TextureFormat {
        match self {
            AttachmentFormat::Rgb8U => TextureFormat::Rgba8Unorm,
            AttachmentFormat::Rgba8U => TextureFormat::Rgba8Unorm,
            AttachmentFormat::Rgba8ULinear => TextureFormat::Rgba8Unorm,
            AttachmentFormat::R8U => TextureFormat::R8Unorm,
            AttachmentFormat::R16U => TextureFormat::R16Uint,
            AttachmentFormat::R16I => TextureFormat::R16Uint,
            AttachmentFormat::Rg16U => TextureFormat::Rg16Uint,
            AttachmentFormat::R32F => TextureFormat::R32Float,
        }
    }

    /// The size of a pixel of the atlas in bytes.
    pub open spec fn spec_pixel_size(self) -> int {
        match self {
            AttachmentFormat::R8U => 1,
            AttachmentFormat::R16U | AttachmentFormat::R16I => 2,
            _ => 4,
        }
    }

    /// The size of a pixel of the source data in bytes.
    pub open spec fn source_pixel_size(self) -> int {
        if self is Rgb8U {
            3
        } else {
            self.spec_pixel_size()
        }
    }

    /// The format in which the shaders that draw the terrain see the attachment.
    ///
    /// Packed data that is not a color must come back byte for byte, so its format is linear.
    pub fn render_format(self) -> (format: TextureFormat)
        ensures
            format == self.spec_render_format(),
    {
        match self {
            AttachmentFormat::Rgb8U => TextureFormat::Rgba8UnormSrgb,
            AttachmentFormat::Rgba8U => TextureFormat::Rgba8UnormSrgb,
            AttachmentFormat::Rgba8ULinear => TextureFormat::Rgba8Unorm,
            AttachmentFormat::R8U => TextureFormat::R8Unorm,
            AttachmentFormat::R16U => TextureFormat::R16Unorm,
            AttachmentFormat::R16I => TextureFormat::R16Snorm,
            AttachmentFormat::Rg16U => TextureFormat::Rg16Unorm,
            AttachmentFormat::R32F => TextureFormat::R32Float,
        }
    }

    /// The format in which the texture of the attachment is created and processed.
    pub fn processing_format(self) -> (format: TextureFormat)
        ensures
            format == self.spec_processing_format(),
    {
        match self {
            AttachmentFormat::Rgb8U => TextureFormat::Rgba8Unorm,
            AttachmentFormat::Rgba8U => TextureFormat::Rgba8Unorm,
            AttachmentFormat::Rgba8ULinear => TextureFormat::Rgba8Unorm,
            AttachmentFormat::R8U => TextureFormat::R8Unorm,
            AttachmentFormat::R16U => TextureFormat::R16Uint,
            AttachmentFormat::R16I => TextureFormat::R16Uint,
            AttachmentFormat::Rg16U => TextureFormat::Rg16Uint,
            AttachmentFormat::R32F => TextureFormat::R32Float,
        }
    }

    /// The size of a pixel of the atlas in bytes.
    pub fn pixel_size(self) -> (size: u32)
        ensures
            size == self.spec_pixel_size(),
    {
        match self {
            AttachmentFormat::Rgb8U => 4,
            AttachmentFormat::Rgba8U => 4,
            AttachmentFormat::Rgba8ULinear => 4,
            AttachmentFormat::R8U => 1,
            AttachmentFormat::R16U => 2,
            AttachmentFormat::R16I => 2,
            AttachmentFormat::Rg16U => 4,
            AttachmentFormat::R32F => 4,
        }
    }
}

impl std::str::FromStr for AttachmentFormat {
    type Err = ParseError;

    /// The format with the given name; white space around the name does not count.
    fn from_str(text: &str) -> (format: Result<Self, ParseError>)
        ensures
            format is Ok <==> named_format(trimmed(text@)) is Some,
            format is Ok ==> Some(format->Ok_0) == named_format(trimmed(text@)),
    {
        let name = trim(text);
        if same_text(name, "rg8u") {
            Ok(AttachmentFormat::Rgb8U)
        } else if same_text(name, "rgba8u") {
            Ok(AttachmentFormat::Rgba8U)
        } else if same_text(name, "rgba8u_linear") {
            Ok(AttachmentFormat::Rgba8ULinear)
        } else if same_text(name, "r8u") {
            Ok(AttachmentFormat::R8U)
        } else if same_text(name, "r16u") {
            Ok(AttachmentFormat::R16U)
        } else if same_text(name, "r16i") {
            Ok(AttachmentFormat::R16I)
        } else if same_text(name, "r32f") {
            Ok(AttachmentFormat::R32F)
        } else {
            Err(ParseError)
        }
    }
}

/// A pixel is as large as a texel of both textures that hold it.
pub proof fn pixels_fit_their_textures(format: AttachmentFormat)
    ensures
        format.spec_pixel_size() == format.spec_render_format().texel_size(),
        format.spec_pixel_size() == format.spec_processing_format().texel_size(),
{
}

/// Except for the 16 bit formats, the texture of an attachment can be viewed in its render format:
/// the two differ at most by the sRGB transfer function.
pub proof fn render_view_differs_at_most_by_srgb(format: AttachmentFormat)
    requires
        !(format is R16U),
        !(format is R16I),
        !(format is Rg16U),
    ensures
        format.spec_render_format().linear() == format.spec_processing_format().linear(),
{
}

/// Configures an attachment.
#[derive(Clone, Copy, Debug, PartialEq, Eq, Structural)]
pub struct AttachmentConfig {
    /// The size of the texture of a tile, borders included.
    pub texture_size: u32,
    /// The overlapping border around the tile, used to prevent sampling artifacts.
    pub border_size: u32,
    pub mip_level_count: u32,
    pub mask: bool,
    /// The format of the attachment.
    pub format: AttachmentFormat,
}

impl Default for AttachmentConfig {
    fn default() -> (config: Self)
        ensures
            config == (AttachmentConfig {
                texture_size: 512,
                border_size: 2,
                mip_level_count: 2,
                mask: false,
                format: AttachmentFormat::Rgba8U,
            }),
    {
        AttachmentConfig {
            texture_size: 512,
            border_size: 2,
            mip_level_count: 2,
            mask: false,
            format: AttachmentFormat::Rgba8U,
        }
    }
}

impl AttachmentConfig {
    /// Whether the texture is large enough for its two borders.
    pub open spec fn borders_fit(self) -> bool {
        2 * self.border_size <= self.texture_size
    }

    /// The size of the texture without its two borders.
    pub open spec fn center(self) -> int {
        self.texture_size - 2 * self.border_size
    }

    /// The size of the texture without one border.
    pub open spec fn offset(self) -> int {
        self.texture_size - self.border_size
    }

    /// The size of the texture without its two borders.
    pub fn center_size(&self) -> (size: u32)
        requires
            self.borders_fit(),
        ensures
            size == self.center(),
            size == self.texture_size - 2 * self.border_size,
    {
        self.texture_size - 2 * self.border_size
    }

    /// The size of the texture without one border.
    pub fn offset_size(&self) -> (size: u32)
        requires
            self.border_size <= self.texture_size,
        ensures
            size == self.offset(),
            size == self.texture_size - self.border_size,
    {
        self.texture_size - self.border_size
    }
}

/// The pixels of an attachment of a tile.
#[derive(Clone)]
pub enum AttachmentData {
    /// Four channels of 8 bit.
    Rgba8U(Vec<[u8; 4]>),
    /// One channel of 8 bit.
    R8U(Vec<u8>),
    /// One channel of 16 bit.
    R16U(Vec<u16>),
    /// One signed channel of 16 bit.
    R16I(Vec<i16>),
    /// Two channels of 16 bit.
    Rg16U(Vec<[u16; 2]>),
    /// One channel of 32 bit floating point numbers, each kept as its bit pattern.
    R32F(Vec<u32>),
}

impl AttachmentData {
    /// Whether these are the pixels that `bytes` hold in the given format and byte order.
    ///
    /// A texture with three channels does not exist, so the alpha channel is filled in.
    pub open spec fn holds(
        self,
        bytes: Seq<u8>,
        format: AttachmentFormat,
        order: ByteOrder,
    ) -> bool {
        match format {
            AttachmentFormat::Rgb8U => {
                &&& self matches AttachmentData::Rgba8U(pixels)
                &&& pixels@.len() == bytes.len() / 3
                &&& forall|i: int|
                    0 <= i < pixels@.len() ==> (#[trigger] pixels@[i])@ == seq![
                        bytes[3 * i],
                        bytes[3 * i + 1],
                        bytes[3 * i + 2],
                        255u8,
                    ]
            },
            AttachmentFormat::Rgba8U | AttachmentFormat::Rgba8ULinear => {
                &&& self matches AttachmentData::Rgba8U(pixels)
                &&& flat_quads(pixels@) == bytes
            },
            AttachmentFormat::R8U => {
                &&& self matches AttachmentData::R8U(pixels)
                &&& pixels@ == bytes
            },
            AttachmentFormat::R16U => {
                &&& self matches AttachmentData::R16U(pixels)
                &&& pixels@ == words16(bytes, order)
            },
            AttachmentFormat::R16I => {
                &&& self matches AttachmentData::R16I(pixels)
                &&& pixels@ == signed_words16(bytes, order)
            },
            AttachmentFormat::Rg16U => {
                &&& self matches AttachmentData::Rg16U(pixels)
                &&& flat_pairs(pixels@) == words16(bytes, order)
            },
            AttachmentFormat::R32F => {
                &&& self matches AttachmentData::R32F(pixels)
                &&& pixels@ == words32(bytes, order)
            },
        }
    }

    /// The memory representation of the pixels in the given byte order.
    pub open spec fn memory(self, order: ByteOrder) -> Seq<u8> {
        match self {
            AttachmentData::Rgba8U(pixels) => flat_quads(pixels@),
            AttachmentData::R8U(pixels) => pixels@,
            AttachmentData::R16U(pixels) => bytes_of_words16(pixels@, order),
            AttachmentData::R16I(pixels) => bytes_of_words16(
                unsigned_words16(pixels@),
                order,
            ),
            AttachmentData::Rg16U(pixels) => bytes_of_words16(
                flat_pairs(pixels@),
                order,
            ),
            AttachmentData::R32F(pixels) => bytes_of_words32(pixels@, order),
        }
    }

    /// The number of bytes of the memory representation.
    pub open spec fn byte_count(self) -> nat {
        match self {
            AttachmentData::Rgba8U(pixels) => 4 * pixels@.len(),
            AttachmentData::R8U(pixels) => pixels@.len(),
            AttachmentData::R16U(pixels) => 2 * pixels@.len(),
            AttachmentData::R16I(pixels) => 2 * pixels@.len(),
            AttachmentData::Rg16U(pixels) => 4 * pixels@.len(),
            AttachmentData::R32F(pixels) => 4 * pixels@.len(),
        }
    }

    /// Reads the pixels of a tile out of its bytes.
    pub fn from_bytes(data: &[u8], format: AttachmentFormat) -> (pixels: Self)
        requires
            data@.len() % (format.source_pixel_size() as nat) == 0,
        ensures
            pixels.holds(data@, format, ByteOrder::Little) || pixels.holds(
                data@,
                format,
                ByteOrder::Big,
            ),
    {
        match format {
            AttachmentFormat::Rgb8U => AttachmentData::Rgba8U(opaque_pixels(data)),
            AttachmentFormat::Rgba8U => AttachmentData::Rgba8U(collect_u8_quads(data)),
            AttachmentFormat::Rgba8ULinear => AttachmentData::Rgba8U(collect_u8_quads(data)),
            AttachmentFormat::R8U => AttachmentData::R8U(vstd::slice::slice_to_vec(data)),
            AttachmentFormat::R16U => AttachmentData::R16U(collect_u16(data)),
            AttachmentFormat::R16I => AttachmentData::R16I(collect_i16(data)),
            AttachmentFormat::Rg16U => AttachmentData::Rg16U(collect_u16_pairs(data)),
            AttachmentFormat::R32F => AttachmentData::R32F(collect_u32(data)),
        }
    }

    /// The bytes of the pixels, as they are written to the texture.
    pub fn bytes(&self) -> (bytes: &[u8])
        ensures
            bytes@ == self.memory(ByteOrder::Little) || bytes@ == self.memory(ByteOrder::Big),
            bytes@.len() == self.byte_count(),
    {
        match self {
            AttachmentData::Rgba8U(data) => bytes_of_u8_quads(data.as_slice()),
            AttachmentData::R8U(data) => data.as_slice(),
            AttachmentData::R16U(data) => bytes_of_u16(data.as_slice()),
            AttachmentData::R16I(data) => bytes_of_i16(data.as_slice()),
            AttachmentData::Rg16U(data) => bytes_of_u16_pairs(data.as_slice()),
            AttachmentData::R32F(data) => bytes_of_u32(data.as_slice()),
        }
    }
}

/// The pixels of three channels with an opaque alpha channel.
fn opaque_pixels(data: &[u8]) -> (pixels: Vec<[u8; 4]>)
    requires
        data@.len() % 3 == 0,
    ensures
        pixels@.len() == data@.len() / 3,
        forall|i: int|
            0 <= i < pixels@.len() ==> (#[trigger] pixels@[i])@ == seq![
                data@[3 * i],
                data@[3 * i + 1],
                data@[3 * i + 2],
                255u8,
            ],
{
    let mut pixels: Vec<[u8; 4]> = Vec::new();
    let length: usize = data.len();
    let count: usize = length / 3;
    let mut i: usize = 0;
    while i < count
        invariant
            i <= count,
            length == data@.len(),
            count == length / 3,
            pixels@.len() == i,
            forall|j: int|
                0 <= j < i ==> (#[trigger] pixels@[j])@ == seq![
                    data@[3 * j],
                    data@[3 * j + 1],
                    data@[3 * j + 2],
                    255u8,
                ],
        decreases count - i,
    {
        let pixel = [data[3 * i], data[3 * i + 1], data[3 * i + 2], 255u8];
        assert(pixel@ =~= seq![data@[3 * i], data@[3 * i + 1], data@[3 * i + 2], 255u8]);
        pixels.push(pixel);
        i += 1;
    }
    pixels
}

/// Pixels with channels of single bytes have the bytes that they were read from as their memory
/// representation on every machine, whatever the byte order of its words.
pub proof fn byte_channels_keep_their_bytes(
    pixels: AttachmentData,
    bytes: Seq<u8>,
    format: AttachmentFormat,
    read: ByteOrder,
    written: ByteOrder,
)
    requires
        format is Rgba8U || format is Rgba8ULinear || format is R8U,
        pixels.holds(bytes, format, read),
    ensures
        pixels.memory(written) == bytes,
{
}

/// The pixels read out of bytes have those bytes as their memory representation, unless the alpha
/// channel had to be filled in.
pub proof fn pixels_keep_their_bytes(
    pixels: AttachmentData,
    bytes: Seq<u8>,
    format: AttachmentFormat,
    order: ByteOrder,
)
    requires
        !(format is Rgb8U),
        bytes.len() % (format.source_pixel_size() as nat) == 0,
        pixels.holds(bytes, format, order),
    ensures
        pixels.memory(order) == bytes,
{
    match pixels {
        AttachmentData::R16U(_) => bytes_round_trip_through_words16(bytes, order),
        AttachmentData::R16I(words) => {
            let signed = signed_words16(bytes, order);
            assert(unsigned_words16(signed) =~= words16(
                bytes,
                order,
            ));
            bytes_round_trip_through_words16(bytes, order);
        },
        AttachmentData::Rg16U(_) => {
            assert(bytes.len() == 4 * (bytes.len() / 4));
            bytes_round_trip_through_words16(bytes, order);
        },
        AttachmentData::R32F(_) => bytes_round_trip_through_words32(bytes, order),
        _ => {},
    }
}

/// Pixels of three channels keep their channels and become opaque.
pub proof fn opaque_pixels_keep_their_channels(
    pixels: AttachmentData,
    bytes: Seq<u8>,
    order: ByteOrder,
    pixel: int,
    channel: int,
)
    requires
        bytes.len() % 3 == 0,
        pixels.holds(bytes, AttachmentFormat::Rgb8U, order),
        0 <= pixel < bytes.len() / 3,
        0 <= channel < 4,
    ensures
        pixels.memory(order)[4 * pixel + channel] == if channel < 3 {
            bytes[3 * pixel + channel]
        } else {
            255u8
        },
{
    let i = 4 * pixel + channel;
    assert(i / 4 == pixel && i % 4 == channel);
    assert(pixels->Rgba8U_0@[pixel]@[channel] == pixels.memory(order)[i]);
}

/// A load of one attachment of one tile.
#[derive(Clone, Debug)]
pub struct AttachmentTile {
    pub coordinate: TileCoordinate,
    pub label: AttachmentLabel,
    /// The generation of the tile state for which the load was issued. A finished load counts only
    /// towards a tile state of the same generation, so that loads for an evicted predecessor at the
    /// same coordinate cannot corrupt the attachment counter of its successor.
    pub generation: u32,
}

impl Default for AttachmentTile {
    fn default() -> (tile: Self)
        ensures
            tile.coordinate == (TileCoordinate { face: 0, lod: 0, x: 0, y: 0 }),
            tile.label is Height,
            tile.generation == 0,
    {
        AttachmentTile {
            coordinate: TileCoordinate::default(),
            label: AttachmentLabel::default(),
            generation: 0,
        }
    }
}

/// The mathematical view of an [`AttachmentTile`].
pub struct AttachmentTileView {
    pub coordinate: TileCoordinate,
    pub label: LabelView,
    pub generation: u32,
}

impl View for AttachmentTile {
    type V = AttachmentTileView;

    open spec fn view(&self) -> AttachmentTileView {
        AttachmentTileView {
            coordinate: self.coordinate,
            label: self.label@,
            generation: self.generation,
        }
    }
}

/// The data of one attachment of the tile in a slot of the atlas.
#[derive(Clone)]
pub struct AttachmentTileWithData {
    pub atlas_index: u32,
    pub label: AttachmentLabel,
    pub data: AttachmentData,
}

/// An attachment of a tile atlas.
pub struct Attachment {
    pub path: String,
    pub texture_size: u32,
    pub center_size: u32,
    pub border_size: u32,
    pub mip_level_count: u32,
    pub format: AttachmentFormat,
    pub mask: bool,
}

/// Whether a path lies in the asset directory.
pub open spec fn in_assets(path: Seq<char>) -> bool {
    6 <= path.len() && path.take(6) == "assets"@
}

/// Whether a path in the asset directory has a separator of one byte behind the directory.
pub open spec fn well_separated(path: Seq<char>) -> bool {
    in_assets(path) ==> path.len() >= 7 && path[6] as int <= 127
}

/// The path relative to the asset directory.
pub open spec fn asset_path(path: Seq<char>) -> Seq<char> {
    if in_assets(path) {
        path.skip(7)
    } else {
        path
    }
}

impl Attachment {
    /// Whether this is the attachment that `config` describes, stored under `path`.
    pub open spec fn configured(self, config: AttachmentConfig, path: Seq<char>) -> bool {
        &&& self.path@ == asset_path(path)
        &&& self.texture_size == config.texture_size
        &&& self.center_size == config.texture_size - 2 * config.border_size
        &&& self.border_size == config.border_size
        &&& self.mip_level_count == config.mip_level_count
        &&& self.format == config.format
        &&& self.mask == config.mask
    }

    /// The attachment that `config` describes. Paths are kept relative to the asset directory.
    pub fn new(config: &AttachmentConfig, path: &str) -> (attachment: Self)
        requires
            config.borders_fit(),
            well_separated(path@),
        ensures
            attachment.configured(*config, path@),
            attachment.texture_size == config.texture_size,
            attachment.border_size == config.border_size,
            attachment.center_size + 2 * attachment.border_size == attachment.texture_size,
            attachment.mip_level_count == config.mip_level_count,
            attachment.format == config.format,
            attachment.mask == config.mask,
            path@.len() >= 7 && path@.take(6) == "assets"@ ==> attachment.path@ == path@.skip(7),
            path@.len() < 6 || path@.take(6) != "assets"@ ==> attachment.path@ == path@,
    {
        proof {
            reveal_strlit("assets");
        }
        let path = if has_prefix(path, "assets") {
            let length: usize = path.unicode_len();
            path.substring_char(7, length).to_owned()
        } else {
            path.to_owned()
        };

        Attachment {
            path,
            texture_size: config.texture_size,
            center_size: config.center_size(),
            border_size: config.border_size,
            mip_level_count: config.mip_level_count,
            format: config.format,
            mask: config.mask,
        }
    }
}

/// Every format has one name, except for the pairs of 16 bit channels, which have none. Another text
/// names no format.
pub proof fn formats_have_one_name(name: Seq<char>)
    ensures
        named_format(name) == Some(AttachmentFormat::Rgb8U) <==> name == "rg8u"@,
        named_format(name) == Some(AttachmentFormat::Rgba8U) <==> name == "rgba8u"@,
        named_format(name) == Some(AttachmentFormat::Rgba8ULinear) <==> name == "rgba8u_linear"@,
        named_format(name) == Some(AttachmentFormat::R8U) <==> name == "r8u"@,
        named_format(name) == Some(AttachmentFormat::R16U) <==> name == "r16u"@,
        named_format(name) == Some(AttachmentFormat::R16I) <==> name == "r16i"@,
        named_format(name) == Some(AttachmentFormat::R32F) <==> name == "r32f"@,
        named_format(name) != Some(AttachmentFormat::Rg16U),
{
    reveal_strlit("rg8u");
    reveal_strlit("rgba8u");
    reveal_strlit("rgba8u_linear");
    reveal_strlit("r8u");
    reveal_strlit("r16u");
    reveal_strlit("r16i");
    reveal_strlit("r32f");
    assert("rg8u"@.len() == 4 && "rg8u"@[1] == 'g');
    assert("rgba8u"@.len() == 6);
    assert("rgba8u_linear"@.len() == 13);
    assert("r8u"@.len() == 3);
    assert("r16u"@.len() == 4 && "r16u"@[1] == '1' && "r16u"@[3] == 'u');
    assert("r16i"@.len() == 4 && "r16i"@[1] == '1' && "r16i"@[3] == 'i');
    assert("r32f"@.len() == 4 && "r32f"@[1] == '3');
}

/// The textures of a format have its channels: three channels get a fourth one, signed channels are
/// seen as signed, floating point numbers stay what they are. Colors of 8 bit are seen through the sRGB
/// transfer function unless they are linear, and are processed without it; 16 bit channels are
/// processed as integers.
pub proof fn textures_hold_the_channels(format: AttachmentFormat)
    ensures
        format.spec_render_format() is Rgba8UnormSrgb <==> format is Rgb8U || format is Rgba8U,
        format.spec_render_format() is Rgba8Unorm <==> format is Rgba8ULinear,
        format.spec_render_format() is R8Unorm <==> format is R8U,
        format.spec_render_format() is R16Unorm <==> format is R16U,
        format.spec_render_format() is R16Snorm <==> format is R16I,
        format.spec_render_format() is Rg16Unorm <==> format is Rg16U,
        format.spec_render_format() is R32Float <==> format is R32F,
        format.spec_processing_format() is Rgba8Unorm <==> format is Rgb8U || format is Rgba8U
            || format is Rgba8ULinear,
        format.spec_processing_format() is R8Unorm <==> format is R8U,
        format.spec_processing_format() is R16Uint <==> format is R16U || format is R16I,
        format.spec_processing_format() is Rg16Uint <==> format is Rg16U,
        format.spec_processing_format() is R32Float <==> format is R32F,
        format.spec_pixel_size() == 1 <==> format is R8U,
        format.spec_pixel_size() == 2 <==> format is R16U || format is R16I,
        format.spec_pixel_size() == 4 <==> !(format is R8U || format is R16U || format is R16I),
{
}

/// The name of a label can be read back: the height always, a custom label if there is no white space
/// around it and it is not called like the height.
pub proof fn labels_are_read_back(name: Seq<char>)
    requires
        name.len() > 0 ==> !is_white_space(name.first()) && !is_white_space(name.last()),
    ensures
        LabelView::parsed(LabelView::Height.name()) == LabelView::Height,
        LabelView::Custom(name).name() == name,
        name != LabelView::Height.name() ==> LabelView::parsed(LabelView::Custom(name).name())
            == LabelView::Custom(name),
        LabelView::Height.name() == seq!['h', 'e', 'i', 'g', 'h', 't'],
{
    reveal_strlit("height");
    assert("height"@ =~= seq!['h', 'e', 'i', 'g', 'h', 't']);
}

/// White space around a text changes nothing about the label or the format that it names.
pub proof fn white_space_names_nothing(text: Seq<char>, space: char)
    requires
        is_white_space(space),
    ensures
        LabelView::parsed(seq![space] + text) == LabelView::parsed(text),
        LabelView::parsed(text.push(space)) == LabelView::parsed(text),
        named_format(trimmed(seq![space] + text)) == named_format(trimmed(text)),
        named_format(trimmed(text.push(space))) == named_format(trimmed(text)),
{
    assert((seq![space] + text).drop_first() =~= text);
    trailing_space_is_trimmed(text, space);
}

/// White space behind a text is trimmed.
proof fn trailing_space_is_trimmed(text: Seq<char>, space: char)
    requires
        is_white_space(space),
    ensures
        trimmed(text.push(space)) == trimmed(text),
    decreases text.len(),
{
    let longer = text.push(space);
    if text.len() == 0 {
        assert(longer.drop_first() =~= text);
    } else if is_white_space(text.first()) {
        assert(longer.drop_first() =~= text.drop_first().push(space));
        trailing_space_is_trimmed(text.drop_first(), space);
    } else {
        assert(longer.first() == text.first());
        assert(longer.drop_last() =~= text);
    }
}

/// The name of an unused binding is `empty_` and a letter, counted from `a`. Two of them have the same
/// name only if their numbers differ by a multiple of 256.
pub proof fn unused_bindings_have_letters(number: usize, other: usize)
    requires
        has_letter(number),
        has_letter(other),
    ensures
        ({
            let name = LabelView::Empty(number).name();
            &&& name.len() == 7
            &&& name.take(6) == seq!['e', 'm', 'p', 't', 'y', '_']
            &&& name[6] as int == 'a' as int + number % 256
            &&& name == LabelView::Empty(other).name() ==> number % 256 == other % 256
        }),
{
    reveal_strlit("empty_");
    let name = LabelView::Empty(number).name();
    assert(name[6] as int == 97 + number % 256);
    assert(LabelView::Empty(other).name()[6] as int == 97 + other % 256);
    assert(name.take(6) =~= seq!['e', 'm', 'p', 't', 'y', '_']);
}

/// The texture of a tile is its center with a border on each side.
pub proof fn borders_surround_the_center(config: AttachmentConfig)
    requires
        config.borders_fit(),
    ensures
        config.center() >= 0,
        config.center() + config.border_size == config.offset(),
        config.offset() + config.border_size == config.texture_size,
{
}

/// An attachment is what its configuration says, and lies in the asset directory at what follows the
/// name of the directory and a separator. Any other path stays as it is.
pub proof fn attachments_follow_their_configuration(
    attachment: Attachment,
    config: AttachmentConfig,
    separator: char,
    rest: Seq<char>,
)
    ensures
        attachment.configured(config, "assets"@.push(separator) + rest) ==> attachment.path@ == rest,
        attachment.configured(config, rest) ==> {
            &&& attachment.texture_size == config.texture_size
            &&& attachment.border_size == config.border_size
            &&& attachment.center_size + 2 * attachment.border_size == attachment.texture_size
            &&& attachment.mip_level_count == config.mip_level_count
            &&& attachment.format == config.format
            &&& attachment.mask == config.mask
            &&& rest.len() < 6 || rest.take(6) != "assets"@ ==> attachment.path@ == rest
        },
{
    reveal_strlit("assets");
    let path = "assets"@.push(separator) + rest;
    assert(path.take(6) =~= "assets"@);
    assert(path.skip(7) =~= rest);
}

/// The memory representation of pixels has as many bytes as is said of it, and as many as they were
/// read from unless the alpha channel had to be filled in.
pub proof fn bytes_are_counted(
    pixels: AttachmentData,
    bytes: Seq<u8>,
    format: AttachmentFormat,
    order: ByteOrder,
)
    requires
        bytes.len() % (format.source_pixel_size() as nat) == 0,
        pixels.holds(bytes, format, order),
    ensures
        pixels.byte_count() == pixels.memory(order).len(),
        format is Rgb8U ==> 3 * pixels.byte_count() == 4 * bytes.len(),
        !(format is Rgb8U) ==> pixels.byte_count() == bytes.len(),
{
    if !(format is Rgb8U) {
        pixels_keep_their_bytes(pixels, bytes, format, order);
    }
}

/// Channels of single bytes are read in order.
pub proof fn byte_channels_are_read_in_order(
    pixels: AttachmentData,
    bytes: Seq<u8>,
    format: AttachmentFormat,
    order: ByteOrder,
    pixel: int,
    channel: int,
)
    requires
        bytes.len() % (format.source_pixel_size() as nat) == 0,
        pixels.holds(bytes, format, order),
        0 <= pixel,
        0 <= channel < 4,
    ensures
        format is Rgb8U && 3 * pixel < bytes.len() ==> pixels is Rgba8U
            && pixels->Rgba8U_0@[pixel]@[channel] == if channel < 3 {
            bytes[3 * pixel + channel]
        } else {
            255u8
        },
        (format is Rgba8U || format is Rgba8ULinear) && 4 * pixel < bytes.len() ==> pixels is Rgba8U
            && pixels->Rgba8U_0@[pixel]@[channel] == bytes[4 * pixel + channel],
        format is R8U && pixel < bytes.len() ==> pixels is R8U && pixels->R8U_0@[pixel]
            == bytes[pixel],
{
    if format is Rgba8U || format is Rgba8ULinear {
        let quads = pixels->Rgba8U_0@;
        let i = 4 * pixel + channel;
        assert(i / 4 == pixel && i % 4 == channel);
        if i < bytes.len() {
            assert(flat_quads(quads)[i] == quads[pixel]@[channel]);
        }
    }
}

/// Channels of 16 bits are read in order, two bytes for each. Which of the two counts 256 times is the
/// byte order; a signed channel is what is left of that number modulo 65536.
pub proof fn words_of_16_bits_are_read_in_order(
    pixels: AttachmentData,
    bytes: Seq<u8>,
    format: AttachmentFormat,
    order: ByteOrder,
    word: int,
)
    requires
        bytes.len() % (format.source_pixel_size() as nat) == 0,
        pixels.holds(bytes, format, order),
        0 <= word,
        2 * word < bytes.len(),
    ensures
        ({
            let value = match order {
                ByteOrder::Little => bytes[2 * word] + 256 * bytes[2 * word + 1],
                ByteOrder::Big => 256 * bytes[2 * word] + bytes[2 * word + 1],
            };
            &&& format is R16U ==> pixels is R16U && pixels->R16U_0@[word] == value
            &&& format is R16I ==> pixels is R16I && (pixels->R16I_0@[word] == value
                || pixels->R16I_0@[word] == value - 65536)
            &&& format is Rg16U ==> pixels is Rg16U && pixels->Rg16U_0@[word / 2]@[word % 2]
                == value
        }),
{
    if format is R16U || format is R16I || format is Rg16U {
        if format is Rg16U {
            assert(bytes.len() == 4 * (bytes.len() / 4));
        }
        let read = words16(bytes, order);
        assert(word < read.len());
        assert(read[word] == match order {
            ByteOrder::Little => bytes[2 * word] + 256 * bytes[2 * word + 1],
            ByteOrder::Big => 256 * bytes[2 * word] + bytes[2 * word + 1],
        });
        if format is R16I {
            assert(signed_words16(bytes, order)[word] == signed16(read[word]));
        }
        if format is Rg16U {
            assert(flat_pairs(pixels->Rg16U_0@)[word] == pixels->Rg16U_0@[word / 2]@[word % 2]);
        }
    }
}

/// Channels of 32 bits are read in order, four bytes for each.
pub proof fn words_of_32_bits_are_read_in_order(
    pixels: AttachmentData,
    bytes: Seq<u8>,
    order: ByteOrder,
    word: int,
)
    requires
        bytes.len() % 4 == 0,
        pixels.holds(bytes, AttachmentFormat::R32F, order),
        0 <= word,
        4 * word < bytes.len(),
    ensures
        pixels is R32F,
        pixels->R32F_0@[word] == match order {
            ByteOrder::Little => bytes[4 * word] + 256 * bytes[4 * word + 1] + 65536 * bytes[4
                * word + 2] + 16777216 * bytes[4 * word + 3],
            ByteOrder::Big => 16777216 * bytes[4 * word] + 65536 * bytes[4 * word + 1] + 256
                * bytes[4 * word + 2] + bytes[4 * word + 3],
        },
{
    assert(word < words32(bytes, order).len());
}

/// A label stands for the height, for a custom name with its characters, or for the unused binding with
/// its number.
pub proof fn labels_stand_for_what_they_say(label: AttachmentLabel)
    ensures
        label is Height <==> label@ is Height,
        label is Custom ==> label@ == LabelView::Custom(label->Custom_0@),
        label is Empty ==> label@ == LabelView::Empty(label->Empty_0),
{
}

} // verus!
