use dicom_core::value::PixelFragmentSequence;
use dicom_core::{DataElement, PrimitiveValue, VR};
use dicom_dictionary_std::{tags, uids};
use dicom_object::{FileMetaTableBuilder, InMemDicomObject};
use slice_volume::coordinator::decode_all;
use slice_volume::decoder::{
    decode_slice, narrow, read_container, slice_from_reading, slice_from_values, ReadFailure,
    Reading, SliceEncoding,
};
use slice_volume::error::{DecodeFault, PipelineError};

struct Image {
    columns: u16,
    rows: u16,
    samples_per_pixel: u16,
    photometric: &'static str,
    bits_allocated: u16,
    bits_stored: u16,
    signed: bool,
    frames: Option<&'static str>,
    slope: &'static str,
    intercept: &'static str,
    pixel_data: Vec<u8>,
    fragments: Option<Vec<Vec<u8>>>,
}

fn words(values: &[u16]) -> Vec<u8> {
    values.iter().flat_map(|v| v.to_le_bytes()).collect()
}

fn grey16(columns: u16, rows: u16, values: &[u16]) -> Image {
    Image {
        columns,
        rows,
        samples_per_pixel: 1,
        photometric: "MONOCHROME2",
        bits_allocated: 16,
        bits_stored: 16,
        signed: false,
        frames: None,
        slope: "1",
        intercept: "0",
        pixel_data: words(values),
        fragments: None,
    }
}

fn short(tag: dicom_core::Tag, value: u16) -> DataElement<InMemDicomObject> {
    DataElement::new(tag, VR::US, PrimitiveValue::from(value))
}

fn text(tag: dicom_core::Tag, vr: VR, value: &str) -> DataElement<InMemDicomObject> {
    DataElement::new(tag, vr, PrimitiveValue::from(value))
}

fn container(image: Image) -> Vec<u8> {
    container_in(image, uids::EXPLICIT_VR_LITTLE_ENDIAN)
}

fn container_in(image: Image, syntax: &str) -> Vec<u8> {
    let mut object = InMemDicomObject::new_empty();
    object.put(text(tags::SOP_CLASS_UID, VR::UI, uids::CT_IMAGE_STORAGE));
    object.put(text(tags::SOP_INSTANCE_UID, VR::UI, "1.2.826.0.1.3680043.2.1"));
    object.put(short(tags::SAMPLES_PER_PIXEL, image.samples_per_pixel));
    object.put(text(tags::PHOTOMETRIC_INTERPRETATION, VR::CS, image.photometric));
    if image.samples_per_pixel > 1 {
        object.put(short(tags::PLANAR_CONFIGURATION, 0));
    }
    if let Some(frames) = image.frames {
        object.put(text(tags::NUMBER_OF_FRAMES, VR::IS, frames));
    }
    object.put(short(tags::ROWS, image.rows));
    object.put(short(tags::COLUMNS, image.columns));
    object.put(short(tags::BITS_ALLOCATED, image.bits_allocated));
    object.put(short(tags::BITS_STORED, image.bits_stored));
    object.put(short(tags::HIGH_BIT, image.bits_stored.saturating_sub(1)));
    object.put(short(tags::PIXEL_REPRESENTATION, if image.signed { 1 } else { 0 }));
    object.put(text(tags::RESCALE_INTERCEPT, VR::DS, image.intercept));
    object.put(text(tags::RESCALE_SLOPE, VR::DS, image.slope));
    let vr = if image.bits_allocated == 8 { VR::OB } else { VR::OW };
    match image.fragments {
        Some(fragments) => object.put(DataElement::new(
            tags::PIXEL_DATA,
            VR::OB,
            PixelFragmentSequence::new(Vec::<u32>::new(), fragments),
        )),
        None => object.put(DataElement::new(
            tags::PIXEL_DATA,
            vr,
            PrimitiveValue::from(image.pixel_data),
        )),
    };
    let file = object
        .with_meta(
            FileMetaTableBuilder::new()
                .transfer_syntax(syntax)
                .media_storage_sop_class_uid(uids::CT_IMAGE_STORAGE)
                .media_storage_sop_instance_uid("1.2.826.0.1.3680043.2.1"),
        )
        .unwrap();
    let mut bytes = Vec::new();
    file.write_all(&mut bytes).unwrap();
    bytes
}

#[test]
fn identity_rescale_keeps_the_stored_values() {
    let values: Vec<u16> = (0..12).map(|i| i * 100).collect();
    let slice = decode_slice(&container(grey16(4, 3, &values))).unwrap();
    assert_eq!(slice.width(), 4);
    assert_eq!(slice.height(), 3);
    assert_eq!(slice.samples(), &(0..12).map(|i| i * 100).collect::<Vec<i16>>());
    assert_eq!(slice.get(1, 2), Some(900));
}

#[test]
fn rescale_is_applied_to_every_sample() {
    let mut image = grey16(2, 2, &[0, 100, 1024, 2000]);
    image.slope = "2";
    image.intercept = "-1024";
    let slice = decode_slice(&container(image)).unwrap();
    assert_eq!(slice.samples(), &vec![-1024, -824, 1024, 2976]);
}

#[test]
fn rescaled_value_is_within_the_tolerance_of_the_sample_type() {
    let mut image = grey16(1, 1, &[1000]);
    image.bits_stored = 12;
    image.slope = "1.5";
    image.intercept = "-1024.25";
    let slice = decode_slice(&container(image)).unwrap();
    let exact: f64 = 1.5 * 1000.0 - 1024.25;
    let got = slice.get(0, 0).unwrap();
    assert_eq!(got, 475);
    assert!((got as f64 - exact).abs() < 1.0);
}

#[test]
fn fraction_is_cut_after_the_rescale_towards_zero() {
    let mut image = grey16(3, 1, &[1, 3, 5]);
    image.slope = "0.5";
    assert_eq!(decode_slice(&container(image)).unwrap().samples(), &vec![0, 1, 2]);
    let mut image = grey16(3, 1, &[1, 3, 5]);
    image.slope = "-0.5";
    assert_eq!(decode_slice(&container(image)).unwrap().samples(), &vec![0, -1, -2]);
}

#[test]
fn signed_samples_are_read_as_signed() {
    let mut image = grey16(2, 1, &[(-5i16) as u16, 7]);
    image.signed = true;
    image.intercept = "-10";
    assert_eq!(decode_slice(&container(image)).unwrap().samples(), &vec![-15, -3]);
}

#[test]
fn eight_bit_samples_are_handled() {
    let mut image = grey16(2, 2, &[]);
    image.bits_allocated = 8;
    image.bits_stored = 8;
    image.intercept = "-100";
    image.pixel_data = vec![0, 1, 200, 255];
    let slice = decode_slice(&container(image)).unwrap();
    assert_eq!(slice.samples(), &vec![-100, -99, 100, 155]);
}

#[test]
fn garbage_is_malformed() {
    assert_eq!(decode_slice(&[]).unwrap_err(), DecodeFault::Malformed);
    assert_eq!(decode_slice(b"this is no slice at all").unwrap_err(), DecodeFault::Malformed);
    assert_eq!(decode_slice(&vec![0u8; 400]).unwrap_err(), DecodeFault::Malformed);
}

#[test]
fn cut_off_container_is_malformed() {
    let whole = container(grey16(4, 4, &[7; 16]));
    assert!(decode_slice(&whole).is_ok());
    assert_eq!(decode_slice(&whole[..whole.len() / 2]).unwrap_err(), DecodeFault::Malformed);
}

#[test]
fn too_little_pixel_data_is_malformed() {
    let mut image = grey16(4, 4, &[7; 16]);
    image.pixel_data = words(&[7; 10]);
    assert_eq!(decode_slice(&container(image)).unwrap_err(), DecodeFault::Malformed);
}

#[test]
fn colour_is_an_unsupported_encoding() {
    let mut image = grey16(2, 2, &[]);
    image.samples_per_pixel = 3;
    image.photometric = "RGB";
    image.bits_allocated = 8;
    image.bits_stored = 8;
    image.pixel_data = vec![0; 12];
    assert_eq!(decode_slice(&container(image)).unwrap_err(), DecodeFault::UnsupportedEncoding);
}

#[test]
fn palette_is_an_unsupported_encoding() {
    let mut image = grey16(2, 2, &[1, 2, 3, 4]);
    image.photometric = "PALETTE COLOR";
    assert_eq!(decode_slice(&container(image)).unwrap_err(), DecodeFault::UnsupportedEncoding);
}

#[test]
fn several_frames_are_an_unsupported_encoding() {
    let mut image = grey16(2, 2, &[1, 2, 3, 4, 5, 6, 7, 8]);
    image.frames = Some("2");
    assert_eq!(decode_slice(&container(image)).unwrap_err(), DecodeFault::UnsupportedEncoding);
}

#[test]
fn no_stored_bit_is_an_unsupported_encoding() {
    let mut image = grey16(2, 2, &[1, 2, 3, 4]);
    image.bits_stored = 0;
    assert_eq!(decode_slice(&container(image)).unwrap_err(), DecodeFault::UnsupportedEncoding);
    let mut image = grey16(2, 2, &[1, 2, 3, 4]);
    image.bits_stored = 17;
    assert_eq!(decode_slice(&container(image)).unwrap_err(), DecodeFault::UnsupportedEncoding);
}

#[test]
fn value_beyond_the_sample_type_is_a_conversion_fault() {
    let image = grey16(2, 1, &[12, 40000]);
    assert_eq!(decode_slice(&container(image)).unwrap_err(), DecodeFault::Conversion);
    let mut image = grey16(2, 1, &[12, 20000]);
    image.slope = "2";
    assert_eq!(decode_slice(&container(image)).unwrap_err(), DecodeFault::Conversion);
    let mut image = grey16(2, 1, &[12, 20000]);
    image.slope = "1000000";
    assert_eq!(decode_slice(&container(image)).unwrap_err(), DecodeFault::Conversion);
}

#[test]
fn largest_and_smallest_sample_fit() {
    let mut image = grey16(2, 1, &[0, 65535]);
    image.intercept = "-32768";
    assert_eq!(decode_slice(&container(image)).unwrap().samples(), &vec![-32768, 32767]);
}

fn encoding() -> SliceEncoding {
    SliceEncoding {
        rows: 3,
        columns: 4,
        frames: 1,
        samples_per_pixel: 1,
        bits_allocated: 16,
        bits_stored: 12,
        monochrome: true,
        stored_bytes: 24,
    }
}

#[test]
fn declaration_of_a_grey_frame_passes_the_check() {
    assert_eq!(encoding().check(), Ok(()));
    assert_eq!(SliceEncoding { stored_bytes: 100, ..encoding() }.check(), Ok(()));
    assert_eq!(
        SliceEncoding { bits_allocated: 8, bits_stored: 8, stored_bytes: 12, ..encoding() }.check(),
        Ok(())
    );
    assert_eq!(SliceEncoding { rows: 0, stored_bytes: 0, ..encoding() }.check(), Ok(()));
}

#[test]
fn declaration_that_is_not_handled_fails_the_check() {
    let unsupported = Err(DecodeFault::UnsupportedEncoding);
    assert_eq!(SliceEncoding { frames: 2, ..encoding() }.check(), unsupported);
    assert_eq!(SliceEncoding { frames: 0, ..encoding() }.check(), unsupported);
    assert_eq!(SliceEncoding { samples_per_pixel: 3, ..encoding() }.check(), unsupported);
    assert_eq!(SliceEncoding { monochrome: false, ..encoding() }.check(), unsupported);
    assert_eq!(SliceEncoding { bits_allocated: 32, ..encoding() }.check(), unsupported);
    assert_eq!(SliceEncoding { bits_allocated: 1, bits_stored: 1, ..encoding() }.check(), unsupported);
    assert_eq!(SliceEncoding { bits_stored: 0, ..encoding() }.check(), unsupported);
    assert_eq!(SliceEncoding { bits_stored: 17, ..encoding() }.check(), unsupported);
    assert_eq!(
        SliceEncoding { bits_allocated: 8, bits_stored: 9, ..encoding() }.check(),
        unsupported
    );
    assert_eq!(
        SliceEncoding { rows: u32::MAX, columns: u32::MAX, stored_bytes: usize::MAX, ..encoding() }
            .check(),
        unsupported
    );
}

#[test]
fn declaration_of_more_than_is_stored_is_malformed() {
    assert_eq!(
        SliceEncoding { stored_bytes: 23, ..encoding() }.check(),
        Err(DecodeFault::Malformed)
    );
    assert_eq!(SliceEncoding { stored_bytes: 0, ..encoding() }.check(), Err(DecodeFault::Malformed));
}

#[test]
fn narrowing_keeps_what_fits() {
    assert_eq!(narrow(&vec![]), Some(vec![]));
    assert_eq!(narrow(&vec![0, -1, 32767, -32768]), Some(vec![0, -1, 32767, -32768]));
    assert_eq!(narrow(&vec![0, 32768]), None);
    assert_eq!(narrow(&vec![-32769, 0]), None);
    assert_eq!(narrow(&vec![i32::MAX]), None);
    assert_eq!(narrow(&vec![i32::MIN]), None);
}

#[test]
fn values_fill_the_slice_row_by_row() {
    let values: Vec<i32> = (0..12).collect();
    let slice = slice_from_values(&encoding(), &values).unwrap();
    assert_eq!((slice.width(), slice.height()), (4, 3));
    assert_eq!(slice.get(3, 0), Some(3));
    assert_eq!(slice.get(0, 1), Some(4));
    assert_eq!(slice.get(3, 2), Some(11));
}

#[test]
fn values_that_do_not_match_the_declaration_are_malformed() {
    let e = slice_from_values(&encoding(), &vec![0; 11]).unwrap_err();
    assert_eq!(e, DecodeFault::Malformed);
    let e = slice_from_values(&encoding(), &vec![100000; 13]).unwrap_err();
    assert_eq!(e, DecodeFault::Malformed);
}

#[test]
fn value_that_does_not_fit_is_a_conversion_fault() {
    let mut values = vec![0; 12];
    values[5] = 32768;
    assert_eq!(slice_from_values(&encoding(), &values).unwrap_err(), DecodeFault::Conversion);
}

#[test]
fn containers_are_decoded_in_their_order() {
    let containers: Vec<Vec<u8>> =
        [30u16, 10, 20].iter().map(|v| container(grey16(2, 2, &[*v; 4]))).collect();
    let slices = decode_all(&containers).unwrap();
    assert_eq!(slices.len(), 3);
    assert_eq!(slices[0].samples(), &vec![30; 4]);
    assert_eq!(slices[1].samples(), &vec![10; 4]);
    assert_eq!(slices[2].samples(), &vec![20; 4]);
    assert!(decode_all(&vec![]).unwrap().is_empty());
}

#[test]
fn first_container_that_fails_fails_the_batch() {
    let good = container(grey16(2, 2, &[1; 4]));
    let mut colour = grey16(2, 2, &[]);
    colour.samples_per_pixel = 3;
    colour.photometric = "RGB";
    colour.bits_allocated = 8;
    colour.bits_stored = 8;
    colour.pixel_data = vec![0; 12];
    let containers = vec![good.clone(), good.clone(), b"corrupt".to_vec(), container(colour)];
    assert_eq!(decode_all(&containers).unwrap_err(), PipelineError::Decode { index: 2 });
    let containers = vec![good.clone(), container(grey16(1, 1, &[50000])), good];
    assert_eq!(decode_all(&containers).unwrap_err(), PipelineError::Conversion { index: 1 });
}

#[test]
fn container_is_read_into_its_declaration_and_values() {
    let mut image = grey16(3, 2, &[1, 2, 3, 4, 5, 6]);
    image.bits_stored = 12;
    image.intercept = "-2";
    match read_container(&container(image)) {
        Reading::Declared { encoding, values } => {
            assert_eq!(
                encoding,
                SliceEncoding {
                    rows: 2,
                    columns: 3,
                    frames: 1,
                    samples_per_pixel: 1,
                    bits_allocated: 16,
                    bits_stored: 12,
                    monochrome: true,
                    stored_bytes: 12,
                }
            );
            assert_eq!(values, Some(vec![-1, 0, 1, 2, 3, 4]));
        },
        other => panic!("read as {:?}", other),
    }
}

#[test]
fn values_are_not_asked_for_where_the_declaration_has_a_fault() {
    let mut image = grey16(2, 2, &[1, 2, 3, 4]);
    image.bits_stored = 0;
    match read_container(&container(image)) {
        Reading::Declared { encoding, values } => {
            assert_eq!(encoding.bits_stored, 0);
            assert_eq!(values, None);
        },
        other => panic!("read as {:?}", other),
    }
    assert!(matches!(read_container(b"no container"), Reading::Unparsed(ReadFailure::Other)));
}

#[test]
fn reading_becomes_the_slice_or_the_fault() {
    let unparsed = Reading::Unparsed(ReadFailure::Other);
    assert_eq!(slice_from_reading(&unparsed).unwrap_err(), DecodeFault::Malformed);
    for failure in [
        ReadFailure::UnrecognizedSyntax,
        ReadFailure::UnsupportedSyntax,
        ReadFailure::UnsupportedSyntaxWithSuggestion,
    ] {
        assert_eq!(failure.fault(), DecodeFault::UnsupportedEncoding);
        assert_eq!(
            slice_from_reading(&Reading::Unparsed(failure)).unwrap_err(),
            DecodeFault::UnsupportedEncoding
        );
    }
    assert_eq!(ReadFailure::Other.fault(), DecodeFault::Malformed);
    assert_eq!(
        slice_from_reading(&Reading::Bitmap).unwrap_err(),
        DecodeFault::UnsupportedEncoding
    );
    assert_eq!(slice_from_reading(&Reading::Undecoded).unwrap_err(), DecodeFault::Malformed);
    let missing = Reading::Declared { encoding: encoding(), values: None };
    assert_eq!(slice_from_reading(&missing).unwrap_err(), DecodeFault::Conversion);
    let colour = Reading::Declared {
        encoding: SliceEncoding { samples_per_pixel: 3, ..encoding() },
        values: Some((0..12).collect()),
    };
    assert_eq!(slice_from_reading(&colour).unwrap_err(), DecodeFault::UnsupportedEncoding);
    let short = Reading::Declared {
        encoding: SliceEncoding { stored_bytes: 2, ..encoding() },
        values: Some((0..12).collect()),
    };
    assert_eq!(slice_from_reading(&short).unwrap_err(), DecodeFault::Malformed);
    let whole = Reading::Declared { encoding: encoding(), values: Some((0..12).collect()) };
    let slice = slice_from_reading(&whole).unwrap();
    assert_eq!((slice.width(), slice.height()), (4, 3));
    assert_eq!(slice.get(1, 2), Some(9));
}

fn with_transfer_syntax(mut bytes: Vec<u8>, uid: &[u8; 20]) -> Vec<u8> {
    let explicit_little_endian = b"1.2.840.10008.1.2.1\0";
    let at = bytes
        .windows(explicit_little_endian.len())
        .position(|window| window == explicit_little_endian)
        .unwrap();
    bytes[at..at + uid.len()].copy_from_slice(uid);
    bytes
}

#[test]
fn unknown_transfer_syntax_is_an_unsupported_encoding() {
    let whole = container(grey16(2, 2, &[1, 2, 3, 4]));
    let unknown = with_transfer_syntax(whole, b"1.2.840.10008.1.2.77");
    assert!(matches!(
        read_container(&unknown),
        Reading::Unparsed(ReadFailure::UnrecognizedSyntax)
    ));
    assert_eq!(decode_slice(&unknown).unwrap_err(), DecodeFault::UnsupportedEncoding);
}

#[test]
fn one_bit_per_sample_is_an_unsupported_encoding() {
    let mut image = grey16(4, 2, &[]);
    image.bits_allocated = 1;
    image.bits_stored = 1;
    image.pixel_data = vec![0b1010_0101];
    let bitmap = container(image);
    assert!(matches!(read_container(&bitmap), Reading::Bitmap));
    assert_eq!(decode_slice(&bitmap).unwrap_err(), DecodeFault::UnsupportedEncoding);
}

#[test]
fn one_bit_per_sample_with_sizes_beyond_all_memory_is_rejected_before_decoding() {
    let mut image = grey16(65535, 65535, &[]);
    image.bits_allocated = 1;
    image.bits_stored = 1;
    image.samples_per_pixel = 64;
    image.frames = Some("2147483647");
    image.pixel_data = vec![0];
    assert_eq!(decode_slice(&container(image)).unwrap_err(), DecodeFault::UnsupportedEncoding);
}

#[test]
fn decoding_twice_gives_the_same_slice() {
    let mut image = grey16(3, 2, &[9, 8, 7, 6, 5, 4]);
    image.slope = "3";
    let bytes = container(image);
    let first = decode_slice(&bytes).unwrap();
    let second = decode_slice(&bytes).unwrap();
    assert_eq!(first.samples(), second.samples());
    assert_eq!(first.samples(), &vec![27, 24, 21, 18, 15, 12]);
    assert_eq!((first.width(), first.height()), (second.width(), second.height()));
}

#[test]
fn transfer_syntax_without_a_pixel_decoder_is_an_unsupported_encoding() {
    let bytes = container_in(grey16(2, 2, &[1, 2, 3, 4]), "1.2.840.10008.1.2.4.90");
    assert!(matches!(read_container(&bytes), Reading::ForeignSyntax));
    assert_eq!(decode_slice(&bytes).unwrap_err(), DecodeFault::UnsupportedEncoding);
    assert_eq!(
        slice_from_reading(&Reading::ForeignSyntax).unwrap_err(),
        DecodeFault::UnsupportedEncoding
    );
}

#[test]
fn implicit_little_endian_is_decoded() {
    let bytes = container_in(grey16(2, 2, &[1, 2, 3, 4]), uids::IMPLICIT_VR_LITTLE_ENDIAN);
    assert_eq!(decode_slice(&bytes).unwrap().samples(), &vec![1, 2, 3, 4]);
}

fn grey8(columns: u16, rows: u16) -> Image {
    let mut image = grey16(columns, rows, &[]);
    image.bits_allocated = 8;
    image.bits_stored = 8;
    image
}

#[test]
fn run_length_container_with_a_short_fragment_is_an_unsupported_encoding() {
    let mut image = grey8(4, 4);
    image.fragments = Some(vec![vec![0, 0]]);
    let bytes = container_in(image, "1.2.840.10008.1.2.5");
    assert!(matches!(read_container(&bytes), Reading::ForeignSyntax));
    assert_eq!(decode_slice(&bytes).unwrap_err(), DecodeFault::UnsupportedEncoding);
}

#[test]
fn compressed_containers_are_an_unsupported_encoding() {
    for syntax in ["1.2.840.10008.1.2.4.50", "1.2.840.10008.1.2.4.70", "1.2.840.10008.1.2.5"] {
        let mut image = grey8(2, 2);
        image.fragments = Some(vec![vec![0xff, 0xd8, 0xff, 0xd9]]);
        let bytes = container_in(image, syntax);
        assert!(matches!(read_container(&bytes), Reading::ForeignSyntax));
        assert_eq!(decode_slice(&bytes).unwrap_err(), DecodeFault::UnsupportedEncoding);
    }
}

#[test]
fn encapsulated_uncompressed_container_is_an_unsupported_encoding() {
    let mut image = grey8(2, 2);
    image.fragments = Some(vec![vec![1, 2, 3, 4]]);
    let bytes = container_in(image, "1.2.840.10008.1.2.1.98");
    assert_eq!(decode_slice(&bytes).unwrap_err(), DecodeFault::UnsupportedEncoding);
}

#[test]
fn native_pixel_data_under_a_compressed_syntax_is_not_decoded() {
    let bytes = container_in(grey16(2, 2, &[1, 2, 3, 4]), "1.2.840.10008.1.2.5");
    assert_eq!(decode_slice(&bytes).unwrap_err(), DecodeFault::UnsupportedEncoding);
}
