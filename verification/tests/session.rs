use qoi_decoder::decoder::DecodeChunks;
use qoi_decoder::decoder::EvaluatedChunk;
use qoi_decoder::decoder::ImageDecoder;
use qoi_decoder::pixel::Pixel;

const END: [u8; 8] = [0, 0, 0, 0, 0, 0, 0, 1];

fn session(chunk_bytes: &[u8]) -> DecodeChunks {
    let mut bytes = vec![b'q', b'o', b'i', b'f', 0, 0, 0, 4, 0, 0, 0, 2, 3, 0];
    bytes.extend_from_slice(chunk_bytes);
    ImageDecoder::new(bytes).unwrap().chunks_iter()
}

fn with_end(chunk_bytes: &[u8]) -> Vec<u8> {
    let mut bytes = chunk_bytes.to_vec();
    bytes.extend_from_slice(&END);
    bytes
}

fn pixel(chunks: &mut DecodeChunks) -> Pixel {
    match chunks.next_chunk() {
        EvaluatedChunk::Decoded(p) => p,
        other => panic!("expected a pixel, got {other:?}"),
    }
}

fn fault() -> EvaluatedChunk {
    EvaluatedChunk::Faulty(String::from("Failed to read source"))
}

#[test]
fn rgb_then_run_yields_four_equal_pixels() {
    // A 4x2 image of 3 channels: an RGB chunk, a run of three more, then
    // four further pixels.
    let mut chunks = session(&with_end(&[
        0xFE, 10, 20, 30, 0xC3, 0xFF, 1, 2, 3, 4, 0xFE, 5, 6, 7, 0x6A, 0x00,
    ]));
    let first = Pixel::new(10, 20, 30, 255);
    assert_eq!(chunks.next_chunk(), EvaluatedChunk::Decoded(first));
    assert_eq!(chunks.next_chunk(), EvaluatedChunk::Decoded(first));
    assert_eq!(chunks.next_chunk(), EvaluatedChunk::Decoded(first));
    assert_eq!(chunks.next_chunk(), EvaluatedChunk::Decoded(first));
    assert_eq!(chunks.next_chunk(), EvaluatedChunk::Decoded(first));
    assert_eq!(chunks.next_chunk(), EvaluatedChunk::Decoded(Pixel::new(1, 2, 3, 4)));
    assert_eq!(chunks.next_chunk(), EvaluatedChunk::Decoded(Pixel::new(5, 6, 7, 4)));
    assert_eq!(chunks.next_chunk(), EvaluatedChunk::Decoded(Pixel::new(5, 6, 7, 4)));
    assert_eq!(chunks.next_chunk(), EvaluatedChunk::Decoded(Pixel::zero()));
    assert_eq!(chunks.next_chunk(), EvaluatedChunk::EndMarker);
}

#[test]
fn header_of_the_example_image() {
    let mut bytes = vec![b'q', b'o', b'i', b'f', 0, 0, 0, 4, 0, 0, 0, 2, 3, 0];
    bytes.extend_from_slice(&END);
    let decoder = ImageDecoder::new(bytes).unwrap();
    assert_eq!(decoder.header().width, 4);
    assert_eq!(decoder.header().height, 2);
    assert_eq!(decoder.header().channels, 3);
    assert_eq!(decoder.header().colorspace, 0);
}

#[test]
fn first_pixel_before_any_chunk_is_opaque_black() {
    let mut chunks = session(&with_end(&[0xC0]));
    assert_eq!(pixel(&mut chunks), Pixel::new(0, 0, 0, 255));
    assert_eq!(chunks.next_chunk(), EvaluatedChunk::EndMarker);
}

#[test]
fn cache_starts_all_zero() {
    for slot in [0u8, 1, 29, 53, 63] {
        let mut chunks = session(&with_end(&[slot, 0xC0]));
        assert_eq!(pixel(&mut chunks), Pixel::zero());
    }
}

#[test]
fn run_of_raw_payload_n_yields_n_plus_one_pixels() {
    for n in [0u8, 1, 2, 30, 61] {
        let mut chunks = session(&with_end(&[0xFF, 9, 8, 7, 6, 0xC0 | n, 0xFF, 1, 1, 1, 1]));
        let first = pixel(&mut chunks);
        assert_eq!(first, Pixel::new(9, 8, 7, 6));
        for _ in 0..=n {
            assert_eq!(pixel(&mut chunks), first);
        }
        assert_eq!(pixel(&mut chunks), Pixel::new(1, 1, 1, 1));
        assert_eq!(chunks.next_chunk(), EvaluatedChunk::EndMarker);
    }
}

#[test]
fn run_leaves_cache_and_previous_pixel_alone() {
    // A run before any other chunk repeats opaque black, which the cache
    // does not hold: slot 53 is still all zero afterwards.
    assert_eq!(Pixel::new(0, 0, 0, 255).hash_index(), 53);
    let mut chunks = session(&with_end(&[0xC2, 53, 0xC0]));
    for _ in 0..3 {
        assert_eq!(pixel(&mut chunks), Pixel::new(0, 0, 0, 255));
    }
    assert_eq!(pixel(&mut chunks), Pixel::zero());
    assert_eq!(pixel(&mut chunks), Pixel::zero());
    assert_eq!(chunks.next_chunk(), EvaluatedChunk::EndMarker);

    // After a run, a difference is still taken from the pixel before it.
    let mut chunks = session(&with_end(&[0xFF, 10, 10, 10, 10, 0xC1, 0x7F]));
    assert_eq!(pixel(&mut chunks), Pixel::new(10, 10, 10, 10));
    assert_eq!(pixel(&mut chunks), Pixel::new(10, 10, 10, 10));
    assert_eq!(pixel(&mut chunks), Pixel::new(10, 10, 10, 10));
    assert_eq!(pixel(&mut chunks), Pixel::new(11, 11, 11, 10));
}

#[test]
fn end_marker_wins_over_index_zero() {
    let mut chunks = session(&END);
    assert_eq!(chunks.next_chunk(), EvaluatedChunk::EndMarker);

    // One byte earlier the same zero is a cache reference.
    let mut chunks = session(&with_end(&[0x00]));
    assert_eq!(chunks.next_chunk(), EvaluatedChunk::Decoded(Pixel::zero()));
    assert_eq!(chunks.next_chunk(), EvaluatedChunk::EndMarker);
}

#[test]
fn end_marker_wins_even_with_bytes_after_it() {
    let mut chunks = session(&[0, 0, 0, 0, 0, 0, 0, 1, 0xFF, 1, 2, 3, 4]);
    assert_eq!(chunks.next_chunk(), EvaluatedChunk::EndMarker);
}

#[test]
fn eight_zero_bytes_are_not_the_end() {
    let mut chunks = session(&with_end(&[0, 0, 0, 0, 0, 0, 0, 0]));
    assert_eq!(chunks.next_chunk(), EvaluatedChunk::Decoded(Pixel::zero()));
    // The window now reads seven zeros and the first zero of the marker.
    assert_eq!(chunks.next_chunk(), EvaluatedChunk::Decoded(Pixel::zero()));
    // Here it reads 00 00 00 00 00 00 00 00 again, and so on, until the
    // last seven zeros of the chunks meet a one: a marker one byte early.
    let mut seen = 2;
    while let EvaluatedChunk::Decoded(p) = chunks.next_chunk() {
        assert_eq!(p, Pixel::zero());
        seen += 1;
    }
    assert_eq!(seen, 8);
}

#[test]
fn end_is_reported_again_and_nothing_is_read() {
    let mut chunks = session(&[0xC0, 0, 0, 0, 0, 0, 0, 0, 1, 0xFF, 1, 2, 3, 4, 0xC0, 0xC0, 0xC0]);
    assert_eq!(pixel(&mut chunks), Pixel::new(0, 0, 0, 255));
    for _ in 0..5 {
        assert_eq!(chunks.next_chunk(), EvaluatedChunk::EndMarker);
    }
}

#[test]
fn truncated_stream_is_a_fault() {
    let mut chunks = session(&[]);
    assert_eq!(chunks.next_chunk(), fault());

    let mut chunks = session(&[0xFE, 10, 20, 30, 0xC3, 0, 0]);
    assert_eq!(chunks.next_chunk(), fault());

    // Enough for the first window, not for the refill after it.
    let mut chunks = session(&[0xFE, 10, 20, 30, 0xC3, 0, 0, 0, 0, 0, 0]);
    assert_eq!(pixel(&mut chunks), Pixel::new(10, 20, 30, 255));
    assert_eq!(chunks.next_chunk(), fault());
}

#[test]
fn session_is_over_after_end_or_fault_only() {
    let mut chunks = session(&with_end(&[0xC1]));
    assert!(!chunks.ended());
    assert_eq!(pixel(&mut chunks), Pixel::new(0, 0, 0, 255));
    assert_eq!(pixel(&mut chunks), Pixel::new(0, 0, 0, 255));
    assert!(!chunks.ended());
    assert_eq!(chunks.next_chunk(), EvaluatedChunk::EndMarker);
    assert!(chunks.ended());

    let mut chunks = session(&[0xC1]);
    assert!(!chunks.ended());
    assert_eq!(chunks.next_chunk(), fault());
    assert!(chunks.ended());
}

#[test]
fn fault_is_reported_again() {
    let mut chunks = session(&[0xC1, 0, 0, 0, 0, 0, 0, 0]);
    assert_eq!(pixel(&mut chunks), Pixel::new(0, 0, 0, 255));
    assert_eq!(pixel(&mut chunks), Pixel::new(0, 0, 0, 255));
    for _ in 0..4 {
        assert_eq!(chunks.next_chunk(), fault());
    }
}

#[test]
fn stream_without_end_marker_faults_when_the_window_runs_dry() {
    // The second chunk is whole, but the window cannot be filled up behind
    // it: three bytes of lookahead are missing.
    let mut chunks = session(&[0xFF, 1, 2, 3, 4, 0xFF, 5, 6, 7, 8]);
    assert_eq!(pixel(&mut chunks), Pixel::new(1, 2, 3, 4));
    assert_eq!(chunks.next_chunk(), fault());

    let mut chunks = session(&[0xFF, 1, 2, 3, 4, 0xFF, 5, 6, 7, 8, 0, 0, 0]);
    assert_eq!(pixel(&mut chunks), Pixel::new(1, 2, 3, 4));
    assert_eq!(pixel(&mut chunks), Pixel::new(5, 6, 7, 8));
    assert_eq!(chunks.next_chunk(), fault());
}

#[test]
fn cache_holds_the_pixel_written_last() {
    let a = Pixel::new(10, 20, 30, 255);
    // Same slot as `a`: adding 64 to red adds 192 to the sum.
    let b = Pixel::new(74, 20, 30, 255);
    assert_eq!(a.hash_index(), 9);
    assert_eq!(b.hash_index(), 9);
    let mut chunks = session(&with_end(&[
        0xFE, 10, 20, 30, // a
        0xFE, 1, 1, 1, // some other slot
        9,    // a again, from the cache
        0xFE, 74, 20, 30, // b overwrites a
        0xFE, 1, 1, 1, //
        9,    // now b
    ]));
    assert_eq!(pixel(&mut chunks), a);
    assert_eq!(pixel(&mut chunks), Pixel::new(1, 1, 1, 255));
    assert_eq!(pixel(&mut chunks), a);
    assert_eq!(pixel(&mut chunks), b);
    assert_eq!(pixel(&mut chunks), Pixel::new(1, 1, 1, 255));
    assert_eq!(pixel(&mut chunks), b);
    assert_eq!(chunks.next_chunk(), EvaluatedChunk::EndMarker);
}

#[test]
fn diff_and_luma_pixels_enter_the_cache() {
    let mut chunks = session(&with_end(&[
        0xFF, 100, 100, 100, 200, // explicit
        0x7F, // +1 +1 +1
        0xA5, 0x5F, // green +5, red 5 - 3, blue 5 + 7
        0xFF, 0, 0, 0, 0, //
        Pixel::new(101, 101, 101, 200).hash_index() as u8,
        Pixel::new(103, 106, 113, 200).hash_index() as u8,
    ]));
    assert_eq!(pixel(&mut chunks), Pixel::new(100, 100, 100, 200));
    assert_eq!(pixel(&mut chunks), Pixel::new(101, 101, 101, 200));
    assert_eq!(pixel(&mut chunks), Pixel::new(103, 106, 113, 200));
    assert_eq!(pixel(&mut chunks), Pixel::zero());
    assert_eq!(pixel(&mut chunks), Pixel::new(101, 101, 101, 200));
    assert_eq!(pixel(&mut chunks), Pixel::new(103, 106, 113, 200));
    assert_eq!(chunks.next_chunk(), EvaluatedChunk::EndMarker);
}

#[test]
fn diff_wraps_in_both_directions() {
    let mut chunks = session(&with_end(&[
        0xFF, 1, 0, 255, 7, //
        0x47, // -2 -1 +1
        0x40, // -2 -2 -2
    ]));
    assert_eq!(pixel(&mut chunks), Pixel::new(1, 0, 255, 7));
    assert_eq!(pixel(&mut chunks), Pixel::new(255, 255, 0, 7));
    assert_eq!(pixel(&mut chunks), Pixel::new(253, 253, 254, 7));
}

#[test]
fn luma_wraps_from_two_to_255() {
    // green -3 with red equal to green: red 2 becomes 255
    let mut chunks = session(&with_end(&[0xFF, 2, 2, 2, 7, 0x80 | 29, 0x88]));
    assert_eq!(pixel(&mut chunks), Pixel::new(2, 2, 2, 7));
    assert_eq!(pixel(&mut chunks), Pixel::new(255, 255, 255, 7));
}

#[test]
fn rgb_chunk_inherits_alpha() {
    let mut chunks = session(&with_end(&[0xFF, 1, 2, 3, 42, 0xFE, 9, 9, 9]));
    assert_eq!(pixel(&mut chunks), Pixel::new(1, 2, 3, 42));
    assert_eq!(pixel(&mut chunks), Pixel::new(9, 9, 9, 42));
}

#[test]
fn next_maps_the_three_answers() {
    let mut chunks = session(&with_end(&[0xFE, 10, 20, 30]));
    assert_eq!(chunks.next(), Some(Ok(Pixel::new(10, 20, 30, 255))));
    assert_eq!(chunks.next(), None);
    assert_eq!(chunks.next(), None);

    let mut chunks = session(&[0xFE, 10, 20]);
    assert_eq!(chunks.next(), Some(Err(String::from("Failed to read source"))));
}

#[test]
fn collect_channels_packs_three_or_four_bytes() {
    let stream = with_end(&[0xFE, 10, 20, 30, 0xC1, 0xFF, 1, 2, 3, 4]);
    let mut chunks = session(&stream);
    assert_eq!(
        chunks.collect_channels(3),
        Ok(vec![10, 20, 30, 10, 20, 30, 10, 20, 30, 1, 2, 3])
    );
    let mut chunks = session(&stream);
    assert_eq!(
        chunks.collect_channels(4),
        Ok(vec![10, 20, 30, 255, 10, 20, 30, 255, 10, 20, 30, 255, 1, 2, 3, 4])
    );
    // Any channel count but 3 packs four bytes.
    let mut chunks = session(&stream);
    assert_eq!(chunks.collect_channels(0).map(|bytes| bytes.len()), Ok(16));
}

#[test]
fn collect_channels_of_an_empty_image() {
    let mut chunks = session(&END);
    assert_eq!(chunks.collect_channels(3), Ok(vec![]));
}

#[test]
fn collect_channels_reports_a_truncated_stream() {
    let mut chunks = session(&[0xFE, 10, 20, 30, 0xC1, 0xFF, 1, 2, 3, 4, 0, 0, 0]);
    assert_eq!(chunks.collect_channels(3), Err(String::from("Failed to read source")));
}

#[test]
fn collect_channels_picks_up_mid_stream() {
    let mut chunks = session(&with_end(&[0xFE, 10, 20, 30, 0xC1, 0xFF, 1, 2, 3, 4]));
    assert_eq!(pixel(&mut chunks), Pixel::new(10, 20, 30, 255));
    assert_eq!(pixel(&mut chunks), Pixel::new(10, 20, 30, 255));
    assert_eq!(chunks.collect_channels(3), Ok(vec![10, 20, 30, 1, 2, 3]));
}
