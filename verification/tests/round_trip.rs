use qoi_decoder::decoder::EvaluatedChunk;
use qoi_decoder::decoder::ImageDecoder;
use qoi_decoder::pixel::Pixel;

/// A plain encoder: runs for repeated pixels, then cache reference,
/// difference, luma, RGB or RGBA, whichever fits first.
fn encode(pixels: &[Pixel], channels: u8) -> Vec<u8> {
    let mut out = vec![b'q', b'o', b'i', b'f'];
    out.extend_from_slice(&(pixels.len() as u32).to_be_bytes());
    out.extend_from_slice(&1u32.to_be_bytes());
    out.push(channels);
    out.push(0);

    let mut prev = Pixel::new(0, 0, 0, 255);
    let mut seen = [Pixel::zero(); 64];
    let mut at = 0;
    while at < pixels.len() {
        let px = pixels[at];
        if px == prev {
            let mut count = 0;
            while at < pixels.len() && pixels[at] == prev && count < 62 {
                count += 1;
                at += 1;
            }
            out.push(0xC0 | (count - 1) as u8);
            continue;
        }
        at += 1;
        let slot = px.hash_index();
        if seen[slot] == px {
            out.push(slot as u8);
        } else {
            seen[slot] = px;
            let dr = px.r.wrapping_sub(prev.r) as i8;
            let dg = px.g.wrapping_sub(prev.g) as i8;
            let db = px.b.wrapping_sub(prev.b) as i8;
            let drdg = dr.wrapping_sub(dg);
            let dbdg = db.wrapping_sub(dg);
            if px.a != prev.a {
                out.extend_from_slice(&[0xFF, px.r, px.g, px.b, px.a]);
            } else if (-2..=1).contains(&dr) && (-2..=1).contains(&dg) && (-2..=1).contains(&db) {
                out.push(
                    0x40 | (((dr + 2) as u8) << 4) | (((dg + 2) as u8) << 2) | (db + 2) as u8,
                );
            } else if (-32..=31).contains(&dg)
                && (-8..=7).contains(&drdg)
                && (-8..=7).contains(&dbdg)
            {
                out.push(0x80 | (dg + 32) as u8);
                out.push((((drdg + 8) as u8) << 4) | (dbdg + 8) as u8);
            } else {
                out.extend_from_slice(&[0xFE, px.r, px.g, px.b]);
            }
        }
        prev = px;
    }
    out.extend_from_slice(&[0, 0, 0, 0, 0, 0, 0, 1]);
    out
}

fn decode(source: Vec<u8>) -> Vec<Pixel> {
    let mut chunks = ImageDecoder::new(source).unwrap().chunks_iter();
    let mut pixels = Vec::new();
    loop {
        match chunks.next_chunk() {
            EvaluatedChunk::Decoded(p) => pixels.push(p),
            EvaluatedChunk::EndMarker => return pixels,
            EvaluatedChunk::Faulty(text) => panic!("fault: {text}"),
        }
    }
}

/// A fixed pseudo-random walk through colours that exercises every chunk
/// kind: small steps, medium steps, jumps, repeats and revisits.
fn sample_pixels(count: usize, seed: u32) -> Vec<Pixel> {
    let mut state = seed;
    let mut step = move || {
        state = state.wrapping_mul(1_664_525).wrapping_add(1_013_904_223);
        (state >> 16) as u8
    };
    let mut pixels = Vec::new();
    let mut px = Pixel::new(0, 0, 0, 255);
    let mut history: Vec<Pixel> = Vec::new();
    while pixels.len() < count {
        match step() % 8 {
            0 => {
                for _ in 0..(step() % 70) {
                    pixels.push(px);
                }
            }
            1 | 2 => {
                px = Pixel::new(
                    px.r.wrapping_add(step() % 4).wrapping_sub(2),
                    px.g.wrapping_add(step() % 4).wrapping_sub(2),
                    px.b.wrapping_add(step() % 4).wrapping_sub(2),
                    px.a,
                );
            }
            3 | 4 => {
                let dg = (step() % 64).wrapping_sub(32);
                px = Pixel::new(
                    px.r.wrapping_add(dg).wrapping_add(step() % 16).wrapping_sub(8),
                    px.g.wrapping_add(dg),
                    px.b.wrapping_add(dg).wrapping_add(step() % 16).wrapping_sub(8),
                    px.a,
                );
            }
            5 => px = Pixel::new(step(), step(), step(), px.a),
            6 => px = Pixel::new(step(), step(), step(), step()),
            _ => {
                if !history.is_empty() {
                    px = history[step() as usize % history.len()];
                }
            }
        }
        history.push(px);
        pixels.push(px);
    }
    pixels.truncate(count);
    pixels
}

#[test]
fn decoding_undoes_encoding_for_sampled_images() {
    for seed in 1..=20u32 {
        let pixels = sample_pixels(2000, seed);
        let source = encode(&pixels, 4);
        assert!(source.len() < 14 + 5 * pixels.len() + 8);
        assert_eq!(decode(source), pixels, "seed {seed}");
    }
}

#[test]
fn decoding_undoes_encoding_for_small_images() {
    let cases: Vec<Vec<Pixel>> = vec![
        vec![],
        vec![Pixel::new(0, 0, 0, 255)],
        vec![Pixel::zero()],
        vec![Pixel::zero(); 7],
        vec![Pixel::new(0, 0, 0, 255); 62],
        vec![Pixel::new(0, 0, 0, 255); 63],
        vec![Pixel::new(0, 0, 0, 255); 200],
        vec![Pixel::zero(), Pixel::new(0, 0, 0, 1), Pixel::zero(), Pixel::new(0, 0, 0, 1)],
        vec![Pixel::new(2, 0, 0, 255), Pixel::new(255, 253, 1, 255)],
        vec![Pixel::new(255, 255, 255, 255), Pixel::new(0, 0, 0, 255)],
    ];
    for pixels in cases {
        assert_eq!(decode(encode(&pixels, 4)), pixels);
    }
}

#[test]
fn encoder_output_uses_every_chunk_kind() {
    let source = encode(&sample_pixels(2000, 7), 4);
    let chunk_bytes = &source[14..source.len() - 8];
    let mut kinds = [false; 6];
    let mut at = 0;
    while at < chunk_bytes.len() {
        let tag = chunk_bytes[at];
        let (kind, size) = match tag {
            0xFE => (0, 4),
            0xFF => (1, 5),
            _ => match tag >> 6 {
                0 => (2, 1),
                1 => (3, 1),
                2 => (4, 2),
                _ => (5, 1),
            },
        };
        kinds[kind] = true;
        at += size;
    }
    assert_eq!(kinds, [true; 6]);
}

#[test]
fn collected_bytes_match_the_pixels() {
    let pixels = sample_pixels(500, 3);
    let mut three = Vec::new();
    let mut four = Vec::new();
    for p in &pixels {
        three.extend_from_slice(&p.to_channels3());
        four.extend_from_slice(&p.to_channels4());
    }
    let mut chunks = ImageDecoder::new(encode(&pixels, 3)).unwrap().chunks_iter();
    assert_eq!(chunks.collect_channels(3), Ok(three));
    let mut chunks = ImageDecoder::new(encode(&pixels, 4)).unwrap().chunks_iter();
    assert_eq!(chunks.collect_channels(4), Ok(four));
}
