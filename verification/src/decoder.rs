//! Decodes one slice container into a grid of samples.
//!
//! The container format is read by the crates `dicom_object`,
//! `dicom_transfer_syntax_registry` and `dicom_pixeldata`; the last also
//! applies the rescale slope and intercept that the container declares. What
//! they are asked for, and what is made of their answers, is decided here:
//! the decoder handles single-frame monochrome images of 8 or 16 bits per
//! sample, and its samples are 16-bit signed integers in the rescaled domain.
//! A rescaled value is truncated towards zero after the rescale, never
//! before, and one that does not fit 16 bits fails the slice rather than
//! being clipped.
//!
//! Only native pixel data is decoded. A container in a transfer syntax that
//! encapsulates its pixel data, compressed or not, fails as an encoding that
//! is not handled: the decoders of such data trust the sizes that the
//! container declares, and a container that declares them wrongly would stop
//! the program rather than fail the slice.

use vstd::prelude::*;
use crate::error::DecodeFault;
use crate::slice::{DecodedSlice, Grid};

verus! {

/// What a slice container declares about its pixel data.
#[derive(Clone, Copy, Debug, PartialEq, Eq, Structural)]
pub struct SliceEncoding {
    /// The number of rows of a frame.
    pub rows: u32,
    /// The number of columns of a frame.
    pub columns: u32,
    /// The number of frames.
    pub frames: u32,
    /// The number of samples that make up one pixel.
    pub samples_per_pixel: u16,
    /// The number of bits that one sample occupies.
    pub bits_allocated: u16,
    /// The number of bits of a sample that carry its value.
    pub bits_stored: u16,
    /// Whether the samples are shades of one colour.
    pub monochrome: bool,
    /// The number of bytes of pixel data that the container holds.
    pub stored_bytes: usize,
}

impl SliceEncoding {
    /// The decoder handles this encoding: one frame of one monochrome sample
    /// per pixel, 8 or 16 bits wide, whose bytes can be addressed.
    pub open spec fn supported(self) -> bool {
        &&& self.frames == 1
        &&& self.samples_per_pixel == 1
        &&& self.monochrome
        &&& (self.bits_allocated == 8 || self.bits_allocated == 16)
        &&& 1 <= self.bits_stored <= self.bits_allocated
        &&& self.frame_bytes() <= usize::MAX
    }

    /// The number of bytes that the one frame of a supported encoding takes.
    pub open spec fn frame_bytes(self) -> int {
        self.rows * self.columns * (self.bits_allocated / 8)
    }

    /// Why a container with this declaration cannot be decoded, if it cannot:
    /// the encoding is not handled, or the container holds fewer bytes than
    /// the frame it declares.
    pub open spec fn fault(self) -> Option<DecodeFault> {
        if !self.supported() {
            Some(DecodeFault::UnsupportedEncoding)
        } else if self.stored_bytes < self.frame_bytes() {
            Some(DecodeFault::Malformed)
        } else {
            None
        }
    }

    /// Checks the declaration before any sample is converted.
    pub fn check(&self) -> (r: Result<(), DecodeFault>)
        ensures
            r matches Err(fault) ==> self.fault() == Some(fault),
            r is Ok ==> self.fault() is None,
    {
        if self.frames != 1 || self.samples_per_pixel != 1 || !self.monochrome {
            return Err(DecodeFault::UnsupportedEncoding);
        }
        if self.bits_allocated != 8 && self.bits_allocated != 16 {
            return Err(DecodeFault::UnsupportedEncoding);
        }
        if self.bits_stored < 1 || self.bits_stored > self.bits_allocated {
            return Err(DecodeFault::UnsupportedEncoding);
        }
        let width: u64 = (self.bits_allocated / 8) as u64;
        assert(0 <= self.rows * self.columns <= 0xffff_ffff * 0xffff_ffff) by (nonlinear_arith)
            requires
                0 <= self.rows <= 0xffff_ffff,
                0 <= self.columns <= 0xffff_ffff,
        ;
        let cells: u64 = (self.rows as u64) * (self.columns as u64);
        assert(0 <= cells * width <= 2 * cells) by (nonlinear_arith)
            requires
                0 <= cells,
                0 <= width <= 2,
        ;
        let bytes: u128 = (cells as u128) * (width as u128);
        assert(bytes == self.frame_bytes());
        if bytes > usize::MAX as u128 {
            return Err(DecodeFault::UnsupportedEncoding);
        }
        if (self.stored_bytes as u128) < bytes {
            return Err(DecodeFault::Malformed);
        }
        Ok(())
    }
}

/// All values fit a 16-bit sample.
pub open spec fn all_fit(values: Seq<i32>) -> bool {
    forall|i: int| 0 <= i < values.len() ==> i16::MIN <= (#[trigger] values[i]) <= i16::MAX
}

/// The values as 16-bit samples.
pub open spec fn narrowed(values: Seq<i32>) -> Seq<i16> {
    Seq::new(values.len(), |i: int| values[i] as i16)
}

/// Converts rescaled values to samples. It gives nothing where one of them
/// does not fit; no value is clipped or wrapped.
pub fn narrow(values: &Vec<i32>) -> (r: Option<Vec<i16>>)
    ensures
        r is Some <==> all_fit(values@),
        r matches Some(samples) ==> samples@ == narrowed(values@),
{
    let mut samples: Vec<i16> = Vec::new();
    let mut i: usize = 0;
    while i < values.len()
        invariant
            i <= values.len(),
            all_fit(values@.take(i as int)),
            samples@ == narrowed(values@.take(i as int)),
        decreases values.len() - i,
    {
        let value = values[i];
        if value < -32768 || value > 32767 {
            assert(!all_fit(values@)) by {
                assert(values@[i as int] == value);
            }
            return None;
        }
        samples.push(value as i16);
        proof {
            let upto = values@.take(i + 1);
            assert(upto =~= values@.take(i as int).push(value));
            assert(samples@ =~= narrowed(upto));
            assert forall|j: int| 0 <= j < upto.len() implies i16::MIN <= (#[trigger] upto[j])
                <= i16::MAX by {
                if j < i {
                    assert(values@.take(i as int)[j] == upto[j]);
                }
            }
        }
        i += 1;
    }
    assert(values@.take(values.len() as int) =~= values@);
    Some(samples)
}

/// What becomes of the rescaled values of a container with this declaration:
/// the slice that they fill row by row, or the fault.
pub open spec fn slice_of(encoding: SliceEncoding, values: Seq<i32>) -> Result<Grid, DecodeFault> {
    if values.len() != encoding.rows * encoding.columns {
        Err(DecodeFault::Malformed)
    } else if !all_fit(values) {
        Err(DecodeFault::Conversion)
    } else {
        Ok(
            Grid {
                width: encoding.columns as nat,
                height: encoding.rows as nat,
                samples: narrowed(values),
            },
        )
    }
}

/// Makes the slice out of the rescaled values of a container: as wide as the
/// container has columns and as high as it has rows. It fails with
/// `Malformed` where the values are not one for each pixel, and with
/// `Conversion` where one of them does not fit a sample.
pub fn slice_from_values(encoding: &SliceEncoding, values: &Vec<i32>) -> (r: Result<
    DecodedSlice,
    DecodeFault,
>)
    ensures
        match r {
            Ok(slice) => slice_of(*encoding, values@) == Ok::<Grid, DecodeFault>(slice@)
                && slice@.filled(),
            Err(fault) => slice_of(*encoding, values@) == Err::<Grid, DecodeFault>(fault),
        },
{
    let width = encoding.columns as usize;
    let height = encoding.rows as usize;
    let pixels = values.len();
    assert(width * height == encoding.rows * encoding.columns) by (nonlinear_arith)
        requires
            width == encoding.columns,
            height == encoding.rows,
    ;
    match width.checked_mul(height) {
        Some(cells) => {
            if pixels != cells {
                return Err(DecodeFault::Malformed);
            }
        },
        None => {
            return Err(DecodeFault::Malformed);
        },
    }
    match narrow(values) {
        None => Err(DecodeFault::Conversion),
        Some(samples) => match DecodedSlice::new(width, height, samples) {
            Some(slice) => Ok(slice),
            None => Err(DecodeFault::Malformed),
        },
    }
}

#[verifier::external_type_specification]
#[verifier::external_body]
pub struct ExStandardDataDictionary(dicom_object::StandardDataDictionary);

#[verifier::external_type_specification]
#[verifier::external_body]
#[verifier::reject_recursive_types(D)]
pub struct ExInMemDicomObject<D>(dicom_object::InMemDicomObject<D>);

#[verifier::external_type_specification]
#[verifier::external_body]
#[verifier::reject_recursive_types(O)]
pub struct ExFileDicomObject<O>(dicom_object::FileDicomObject<O>);

#[verifier::external_type_specification]
#[verifier::external_body]
pub struct ExDecodedPixelData<'a>(dicom_pixeldata::DecodedPixelData<'a>);

#[verifier::external_type_specification]
#[verifier::external_body]
pub struct ExPixelError(dicom_pixeldata::Error);

/// How parsing a container failed, as far as it matters here.
#[derive(Clone, Copy, Debug, PartialEq, Eq, Structural)]
pub enum ReadFailure {
    /// The container names a transfer syntax that is not known.
    UnrecognizedSyntax,
    /// The container is in a transfer syntax that cannot be read.
    UnsupportedSyntax,
    /// The same, where the parser names a feature that would read it.
    UnsupportedSyntaxWithSuggestion,
    /// Any other failure.
    Other,
}

impl ReadFailure {
    pub open spec fn fault_spec(self) -> DecodeFault {
        match self {
            ReadFailure::Other => DecodeFault::Malformed,
            _ => DecodeFault::UnsupportedEncoding,
        }
    }

    /// The fault of a container whose parsing failed like this: a transfer
    /// syntax that cannot be read is an encoding that is not handled, and
    /// every other failure means a malformed container.
    #[verifier::when_used_as_spec(fault_spec)]
    pub fn fault(self) -> (fault: DecodeFault)
        ensures
            fault == self.fault_spec(),
    {
        match self {
            ReadFailure::Other => DecodeFault::Malformed,
            _ => DecodeFault::UnsupportedEncoding,
        }
    }
}

/// What `dicom_object::from_reader` makes of the bytes of a container.
pub uninterp spec fn parsed(container: Seq<u8>) -> Result<
    dicom_object::DefaultDicomObject,
    ReadFailure,
>;

/// What a parsed container holds as Bits Allocated, if it holds a 16-bit
/// unsigned value there.
pub uninterp spec fn allocated_bits(object: &dicom_object::DefaultDicomObject) -> Option<u16>;

/// Whether the registry of transfer syntaxes can decode the data set and the
/// pixel data of the syntax that a parsed container names; nothing where the
/// registry does not know the syntax.
pub uninterp spec fn syntax_decodes(object: &dicom_object::DefaultDicomObject) -> Option<bool>;

/// Whether the transfer syntax that a parsed container names encapsulates
/// the pixel data; nothing where the registry does not know the syntax.
pub uninterp spec fn syntax_encapsulates(object: &dicom_object::DefaultDicomObject) -> Option<
    bool,
>;

/// What `dicom_pixeldata::PixelDecoder::decode_pixel_data` makes of a parsed
/// container; nothing where it fails.
pub uninterp spec fn pixels_of(object: &dicom_object::DefaultDicomObject) -> Option<
    dicom_pixeldata::DecodedPixelData,
>;

/// What a blob of decoded pixel data holds about its encoding: the values of
/// its fields, which its getters return.
pub uninterp spec fn declared_encoding(pixels: &dicom_pixeldata::DecodedPixelData) -> SliceEncoding;

/// What `dicom_pixeldata::DecodedPixelData::to_vec` for 32-bit integers makes
/// of a blob of decoded pixel data; nothing where it fails.
pub uninterp spec fn rescaled(pixels: &dicom_pixeldata::DecodedPixelData) -> Option<Seq<i32>>;

/// Calls `dicom_object::from_reader` on the bytes of a container and tells
/// three variants of its `ReadError` from the others. Claimed: what it
/// returns depends on the bytes alone.
#[verifier::external_body]
fn parse_container(container: &[u8]) -> (r: Result<dicom_object::DefaultDicomObject, ReadFailure>)
    ensures
        r == parsed(container@),
{
    match dicom_object::from_reader(container) {
        Ok(object) => Ok(object),
        Err(dicom_object::ReadError::ReadUnrecognizedTransferSyntax { .. }) => Err(
            ReadFailure::UnrecognizedSyntax,
        ),
        Err(dicom_object::ReadError::ReadUnsupportedTransferSyntax { .. }) => Err(
            ReadFailure::UnsupportedSyntax,
        ),
        Err(dicom_object::ReadError::ReadUnsupportedTransferSyntaxWithSuggestion { .. }) => Err(
            ReadFailure::UnsupportedSyntaxWithSuggestion,
        ),
        Err(_) => Err(ReadFailure::Other),
    }
}

/// Reads Bits Allocated, the element (0028,0100), with
/// `dicom_object::InMemDicomObject::get` and `DataElement::uint16`, as the
/// pixel decoder does. Claimed: what it returns depends on the object alone.
#[verifier::external_body]
fn allocated_bits_of(object: &dicom_object::DefaultDicomObject) -> (bits: Option<u16>)
    ensures
        bits == allocated_bits(object),
{
    match object.get(dicom_object::Tag(0x0028, 0x0100)) {
        Some(element) => element.uint16().ok(),
        None => None,
    }
}

/// Looks up the transfer syntax that the file meta group of a parsed
/// container names, with `TransferSyntaxIndex::get` on
/// `dicom_transfer_syntax_registry::TransferSyntaxRegistry`, and asks
/// `TransferSyntax::can_decode_all` of it, as the pixel decoder does. Claimed:
/// what it returns depends on the object alone.
#[verifier::external_body]
fn syntax_decodes_of(object: &dicom_object::DefaultDicomObject) -> (decodes: Option<bool>)
    ensures
        decodes == syntax_decodes(object),
{
    match dicom_transfer_syntax_registry::TransferSyntaxIndex::get(
        &dicom_transfer_syntax_registry::TransferSyntaxRegistry,
        &object.meta().transfer_syntax,
    ) {
        Some(syntax) => Some(syntax.can_decode_all()),
        None => None,
    }
}

/// Looks up the transfer syntax that the file meta group of a parsed
/// container names, with `TransferSyntaxIndex::get` on
/// `dicom_transfer_syntax_registry::TransferSyntaxRegistry`, and asks
/// `TransferSyntax::is_encapsulated_pixel_data` of it. Claimed: what it
/// returns depends on the object alone.
#[verifier::external_body]
fn syntax_encapsulates_of(object: &dicom_object::DefaultDicomObject) -> (encapsulates: Option<
    bool,
>)
    ensures
        encapsulates == syntax_encapsulates(object),
{
    match dicom_transfer_syntax_registry::TransferSyntaxIndex::get(
        &dicom_transfer_syntax_registry::TransferSyntaxRegistry,
        &object.meta().transfer_syntax,
    ) {
        Some(syntax) => Some(syntax.is_encapsulated_pixel_data()),
        None => None,
    }
}

/// Calls `dicom_pixeldata::PixelDecoder::decode_pixel_data` on a parsed
/// container. Claimed: what it returns depends on the object alone. Left out
/// are the containers of one bit per sample, on whose native pixel data it
/// multiplies the declared sizes without a check, and the containers whose
/// transfer syntax encapsulates the pixel data, which it hands to decoders
/// that index by sizes read from the data.
#[verifier::external_body]
fn decode_pixels<'a>(object: &'a dicom_object::DefaultDicomObject) -> (r: Result<
    dicom_pixeldata::DecodedPixelData<'a>,
    dicom_pixeldata::Error,
>)
    requires
        allocated_bits(object) != Some(1u16),
        syntax_encapsulates(object) == Some(false),
    ensures
        r matches Ok(pixels) ==> pixels_of(object) == Some(pixels),
        r is Err ==> pixels_of(object) is None,
{
    dicom_pixeldata::PixelDecoder::decode_pixel_data(object)
}

/// Reads the fields of a `dicom_pixeldata::DecodedPixelData` through its
/// getters `rows`, `columns`, `number_of_frames`, `samples_per_pixel`,
/// `bits_allocated`, `bits_stored`, `photometric_interpretation` and `data`.
/// Claimed: the getters return what the blob holds, the same at every call.
#[verifier::external_body]
fn encoding_of(pixels: &dicom_pixeldata::DecodedPixelData) -> (encoding: SliceEncoding)
    ensures
        encoding == declared_encoding(pixels),
{
    SliceEncoding {
        rows: pixels.rows(),
        columns: pixels.columns(),
        frames: pixels.number_of_frames(),
        samples_per_pixel: pixels.samples_per_pixel(),
        bits_allocated: pixels.bits_allocated(),
        bits_stored: pixels.bits_stored(),
        monochrome: pixels.photometric_interpretation().is_monochrome(),
        stored_bytes: pixels.data().len(),
    }
}

/// Calls `dicom_pixeldata::DecodedPixelData::to_vec` for 32-bit integers,
/// which applies the declared rescale to every sample and truncates the
/// result. Claimed: what it returns depends on the blob alone. Left out are
/// the blobs on which it panics or runs out of bounds: those whose 16-bit
/// samples declare no stored bit or more than 16, and those whose frame
/// cannot be addressed.
#[verifier::external_body]
fn rescaled_values(pixels: &dicom_pixeldata::DecodedPixelData) -> (r: Result<
    Vec<i32>,
    dicom_pixeldata::Error,
>)
    requires
        declared_encoding(pixels).fault() is None,
    ensures
        r matches Ok(values) ==> rescaled(pixels) == Some(values@),
        r is Err ==> rescaled(pixels) is None,
{
    pixels.to_vec::<i32>()
}

/// What decoding makes of the bytes of a container: the slice, or the fault.
///
/// A container that cannot be parsed fails as its parsing did. One of one bit
/// per sample is not handled, nor is one in a transfer syntax that
/// encapsulates the pixel data or whose pixel data cannot be decoded: only
/// native pixel data is decoded. One whose pixel data fails to decode is
/// malformed. Then the declaration decides: with a fault, the container fails
/// with that fault. Without one, the container fails with `Conversion` where
/// the rescaled values cannot be had, and otherwise gives what `slice_of`
/// makes of the declaration and the values.
pub open spec fn container_outcome(container: Seq<u8>) -> Result<Grid, DecodeFault> {
    match parsed(container) {
        Err(failure) => Err(failure.fault()),
        Ok(object) => if allocated_bits(&object) == Some(1u16) || syntax_encapsulates(&object)
            != Some(false) || syntax_decodes(&object) != Some(true) {
            Err(DecodeFault::UnsupportedEncoding)
        } else {
            match pixels_of(&object) {
                None => Err(DecodeFault::Malformed),
                Some(pixels) => match declared_encoding(&pixels).fault() {
                    Some(fault) => Err(fault),
                    None => match rescaled(&pixels) {
                        None => Err(DecodeFault::Conversion),
                        Some(values) => slice_of(declared_encoding(&pixels), values),
                    },
                },
            }
        },
    }
}

/// The result `r` is what decoding makes of the container.
pub open spec fn decodes_to(container: Seq<u8>, r: Result<DecodedSlice, DecodeFault>) -> bool {
    match r {
        Ok(slice) => container_outcome(container) == Ok::<Grid, DecodeFault>(slice@),
        Err(fault) => container_outcome(container) == Err::<Grid, DecodeFault>(fault),
    }
}

/// A decoded slice has a sample in every cell.
pub proof fn lemma_outcome_is_filled(container: Seq<u8>)
    ensures
        container_outcome(container) matches Ok(grid) ==> grid.filled(),
{
    match container_outcome(container) {
        Ok(grid) => {
            assert(grid.width * grid.height == grid.height * grid.width) by (nonlinear_arith);
        },
        Err(_) => {},
    }
}

/// Decodes the container of one slice. The slice is whole or there is none:
/// a container that cannot be parsed or holds too little pixel data fails
/// with `Malformed`, one whose encoding is not handled with
/// `UnsupportedEncoding`, and one with a rescaled value that does not fit a
/// sample with `Conversion`.
pub fn decode_slice(container: &[u8]) -> (r: Result<DecodedSlice, DecodeFault>)
    ensures
        decodes_to(container@, r),
        r matches Ok(slice) ==> slice@.filled(),
{
    let reading = read_container(container);
    slice_from_reading(&reading)
}

/// What the outside crates made of a container, in plain values.
#[derive(Debug)]
pub enum Reading {
    /// The container could not be parsed.
    Unparsed(ReadFailure),
    /// The container holds one bit per sample; its pixel data is not decoded.
    Bitmap,
    /// The container is in a transfer syntax that encapsulates the pixel
    /// data, or whose pixel data cannot be decoded.
    ForeignSyntax,
    /// The container was parsed, but its pixel data could not be decoded.
    Undecoded,
    /// The pixel data was decoded and declares this encoding. The rescaled
    /// values are there if they were asked for and could be had.
    Declared { encoding: SliceEncoding, values: Option<Vec<i32>> },
}

impl Reading {
    /// What becomes of a container that was read like this.
    pub open spec fn outcome(self) -> Result<Grid, DecodeFault> {
        match self {
            Reading::Unparsed(failure) => Err(failure.fault()),
            Reading::Bitmap => Err(DecodeFault::UnsupportedEncoding),
            Reading::ForeignSyntax => Err(DecodeFault::UnsupportedEncoding),
            Reading::Undecoded => Err(DecodeFault::Malformed),
            Reading::Declared { encoding, values } => match encoding.fault() {
                Some(fault) => Err(fault),
                None => match values {
                    None => Err(DecodeFault::Conversion),
                    Some(values) => slice_of(encoding, values@),
                },
            },
        }
    }
}

/// The result `r` is what becomes of a container that was read as `reading`.
pub open spec fn decoded_from(reading: Reading, r: Result<DecodedSlice, DecodeFault>) -> bool {
    match r {
        Ok(slice) => reading.outcome() == Ok::<Grid, DecodeFault>(slice@),
        Err(fault) => reading.outcome() == Err::<Grid, DecodeFault>(fault),
    }
}

/// Has the outside crates read a container: parse it, read its bits per
/// sample, look up its transfer syntax, decode its pixel data, read the declaration and, where the
/// declaration has no fault, convert the values. The values are asked for on
/// no other declaration.
pub fn read_container(container: &[u8]) -> (reading: Reading)
    ensures
        reading.outcome() == container_outcome(container@),
        reading matches Reading::Declared { encoding, values: Some(_) } ==> encoding.fault()
            is None,
{
    let object = match parse_container(container) {
        Ok(object) => object,
        Err(failure) => {
            return Reading::Unparsed(failure);
        },
    };
    match allocated_bits_of(&object) {
        Some(1) => {
            return Reading::Bitmap;
        },
        _ => {},
    }
    match syntax_encapsulates_of(&object) {
        Some(false) => {},
        _ => {
            return Reading::ForeignSyntax;
        },
    }
    match syntax_decodes_of(&object) {
        Some(true) => {},
        _ => {
            return Reading::ForeignSyntax;
        },
    }
    let pixels = match decode_pixels(&object) {
        Ok(pixels) => pixels,
        Err(_) => {
            return Reading::Undecoded;
        },
    };
    let encoding = encoding_of(&pixels);
    match encoding.check() {
        Err(_) => Reading::Declared { encoding, values: None },
        Ok(()) => match rescaled_values(&pixels) {
            Err(_) => Reading::Declared { encoding, values: None },
            Ok(values) => Reading::Declared { encoding, values: Some(values) },
        },
    }
}

/// Makes the slice, or the fault, out of what the outside crates made of a
/// container.
pub fn slice_from_reading(reading: &Reading) -> (r: Result<DecodedSlice, DecodeFault>)
    ensures
        decoded_from(*reading, r),
        r matches Ok(slice) ==> slice@.filled(),
{
    match reading {
        Reading::Unparsed(failure) => Err(failure.fault()),
        Reading::Bitmap => Err(DecodeFault::UnsupportedEncoding),
        Reading::ForeignSyntax => Err(DecodeFault::UnsupportedEncoding),
        Reading::Undecoded => Err(DecodeFault::Malformed),
        Reading::Declared { encoding, values } => match encoding.check() {
            Err(fault) => Err(fault),
            Ok(()) => match values {
                None => Err(DecodeFault::Conversion),
                Some(values) => slice_from_values(encoding, values),
            },
        },
    }
}

} // verus!
