use raptorq_interleave::{InterleavedDecoder, InterleavedEncoder, Oti, RaptorQError};

// Symbol sizes divisible by 8, the alignment of the blocks.
const TEST_SYMBOL_SIZE: u16 = 104;

/// Turns an encoder frame (header first) into a decoder frame (header last).
fn reframe(frame: &[u8]) -> Vec<u8> {
    let mut out = Vec::new();
    out.extend_from_slice(&frame[8..]);
    out.extend_from_slice(&frame[0..8]);
    out
}

fn pattern(i: usize, symbol_size: usize) -> Vec<u8> {
    (0..symbol_size).map(|j| ((i * symbol_size + j) % 256) as u8).collect()
}

#[test]
fn test_encoder_creation() {
    let encoder = InterleavedEncoder::new(4, 8, 1200, 4);
    assert!(encoder.is_some());

    let encoder = encoder.unwrap();
    assert_eq!(encoder.depth(), 4);
    assert_eq!(encoder.k(), 8);
    assert_eq!(encoder.symbol_size(), 1200);
}

#[test]
fn test_encoder_invalid_params() {
    assert!(InterleavedEncoder::new(0, 8, 1200, 4).is_none());
    assert!(InterleavedEncoder::new(9, 8, 1200, 4).is_none());
    assert!(InterleavedEncoder::new(4, 0, 1200, 4).is_none());
    assert!(InterleavedEncoder::new(4, 8, 0, 4).is_none());
}

#[test]
fn test_round_robin_distribution() {
    let mut encoder = InterleavedEncoder::new(4, 8, TEST_SYMBOL_SIZE, 2).unwrap();

    for i in 0..8u32 {
        let data = vec![i as u8; TEST_SYMBOL_SIZE as usize];
        let block_id = encoder.add_packet(&data).unwrap();
        assert_eq!(block_id, i % 4);
    }

    // With depth=4 and k=8 each block needs 8 packets; 8 in all gives 2 per block.
    let status = encoder.get_block_status(0).unwrap();
    assert_eq!(status.packet_count, 2);
    assert!(!status.is_ready);
}

#[test]
fn test_block_ready_and_encoding() {
    let mut encoder = InterleavedEncoder::new(2, 4, TEST_SYMBOL_SIZE, 2).unwrap();

    for i in 0..8u32 {
        let data = vec![i as u8; TEST_SYMBOL_SIZE as usize];
        encoder.add_packet(&data).unwrap();
    }

    let status0 = encoder.get_block_status(0).unwrap();
    let status1 = encoder.get_block_status(1).unwrap();

    assert!(status0.is_ready);
    assert!(status1.is_ready);
    assert_eq!(status0.packet_count, 4);
    assert_eq!(status1.packet_count, 4);
}

#[test]
fn test_generate_repair() {
    let mut encoder = InterleavedEncoder::new(2, 4, TEST_SYMBOL_SIZE, 2).unwrap();

    for i in 0..8u32 {
        let data = vec![i as u8; TEST_SYMBOL_SIZE as usize];
        encoder.add_packet(&data).unwrap();
    }

    let repair = encoder.generate_repair(0).unwrap();
    assert!(!repair.is_empty());

    let status = encoder.get_block_status(0).unwrap();
    assert_eq!(status.packet_count, 0);
    assert_eq!(status.block_id, 2);
}

#[test]
fn test_decoder_creation() {
    let encoder = InterleavedEncoder::new(4, 8, 1200, 4).unwrap();
    let oti = encoder.get_oti();

    let decoder = InterleavedDecoder::new(&oti, 4);
    assert!(decoder.is_some());

    let decoder = decoder.unwrap();
    assert_eq!(decoder.depth(), 4);
    assert_eq!(decoder.k(), 8);
}

#[test]
fn test_encode_decode_roundtrip() {
    let depth = 2u32;
    let k = 4u32;
    let symbol_size = TEST_SYMBOL_SIZE;
    let repair_symbols = 2u32;

    let mut encoder = InterleavedEncoder::new(depth, k, symbol_size, repair_symbols).unwrap();
    let oti = encoder.get_oti();
    let mut decoder = InterleavedDecoder::new(&oti, depth).unwrap();

    let mut source_data: Vec<Vec<u8>> = Vec::new();
    for i in 0..8u32 {
        let mut data = vec![0u8; symbol_size as usize];
        for j in 0..symbol_size as usize {
            data[j] = ((i as usize * symbol_size as usize + j) % 256) as u8;
        }
        source_data.push(data);
    }

    for data in &source_data {
        encoder.add_packet(data).unwrap();
    }

    for block_idx in 0..depth {
        let source_packets = encoder.get_source_packets(block_idx as usize).unwrap();
        let packet_size = 8 + symbol_size as usize;
        let num_packets = source_packets.len() / packet_size;

        for i in 0..num_packets {
            let start = i * packet_size;
            let end = start + packet_size;
            let packet = &source_packets[start..end];

            let mut decoder_packet = Vec::new();
            decoder_packet.extend_from_slice(&packet[8..]);
            decoder_packet.extend_from_slice(&packet[0..8]);

            decoder.add_packet(&decoder_packet).ok();
        }
    }

    assert!(decoder.is_block_complete(0));
    assert!(decoder.is_block_complete(1));

    let decoded0 = decoder.get_block_data(0).unwrap();
    let decoded1 = decoder.get_block_data(1).unwrap();

    assert_eq!(decoded0.len(), k as usize * symbol_size as usize);
    assert_eq!(decoded1.len(), k as usize * symbol_size as usize);
}

#[test]
fn test_recovery_with_repair_symbols() {
    let depth = 1u32;
    let k = 4u32;
    let symbol_size = TEST_SYMBOL_SIZE;
    let repair_symbols = 4u32;

    let mut encoder = InterleavedEncoder::new(depth, k, symbol_size, repair_symbols).unwrap();
    let oti = encoder.get_oti();
    let mut decoder = InterleavedDecoder::new(&oti, depth).unwrap();

    let mut source_packets: Vec<Vec<u8>> = Vec::new();
    for i in 0..k {
        let mut data = vec![0u8; symbol_size as usize];
        for j in 0..symbol_size as usize {
            data[j] = ((i as usize * symbol_size as usize + j) % 256) as u8;
        }
        source_packets.push(data.clone());
        encoder.add_packet(&data).unwrap();
    }

    let repair_data = encoder.generate_repair(0).unwrap();

    let repair_packet_size = 8 + symbol_size as usize;
    let num_repair = repair_data.len() / repair_packet_size;
    assert_eq!(num_repair, repair_symbols as usize);

    // Lose the first source packet: send the other three, then one repair packet.
    for i in 1..k {
        let mut packet = Vec::new();
        packet.extend_from_slice(&source_packets[i as usize]);
        packet.extend_from_slice(&0u32.to_be_bytes());
        packet.extend_from_slice(&i.to_be_bytes());

        decoder.add_packet(&packet).ok();
    }

    assert!(!decoder.is_block_complete(0));

    let repair_pkt = &repair_data[0..repair_packet_size];
    let mut decoder_repair = Vec::new();
    decoder_repair.extend_from_slice(&repair_pkt[8..]);
    decoder_repair.extend_from_slice(&repair_pkt[0..8]);

    let result = decoder.add_packet(&decoder_repair);
    assert!(result.is_ok());
}

#[test]
fn test_full_encode_decode_with_recovery() {
    let depth = 4u32;
    let k = 8u32;
    let symbol_size: u16 = 1200;
    let repair_symbols = 4u32;

    let mut encoder = InterleavedEncoder::new(depth, k, symbol_size, repair_symbols).unwrap();
    let oti = encoder.get_oti();
    let mut decoder = InterleavedDecoder::new(&oti, depth).unwrap();

    let mut all_source_data: Vec<Vec<u8>> = Vec::new();
    for i in 0..(depth * k) {
        let mut data = vec![0u8; symbol_size as usize];
        for j in 0..symbol_size as usize {
            data[j] = ((i as usize * 17 + j) % 256) as u8;
        }
        all_source_data.push(data);
    }

    for data in &all_source_data {
        encoder.add_packet(data).unwrap();
    }

    for block_idx in 0..depth {
        let status = encoder.get_block_status(block_idx as usize).unwrap();
        assert!(status.is_ready, "Block {} should be ready", block_idx);
    }

    // Block 0 holds packets 0, 4, 8, ... (every depth-th packet).
    let block_0_packets: Vec<_> = all_source_data
        .iter()
        .enumerate()
        .filter(|(i, _)| i % (depth as usize) == 0)
        .map(|(_, d)| d.clone())
        .collect();

    // Send 7 of the 8 source packets, skipping the first.
    for (i, data) in block_0_packets.iter().enumerate().skip(1) {
        let mut packet = Vec::new();
        packet.extend_from_slice(data);
        packet.extend_from_slice(&0u32.to_be_bytes());
        packet.extend_from_slice(&(i as u32).to_be_bytes());

        decoder.add_packet(&packet).ok();
    }

    assert!(!decoder.is_block_complete(0));

    let repair_data = encoder.generate_repair(0).unwrap();
    let repair_packet_size = 8 + symbol_size as usize;

    let repair_pkt = &repair_data[0..repair_packet_size];
    let mut decoder_repair = Vec::new();
    decoder_repair.extend_from_slice(&repair_pkt[8..]);
    decoder_repair.extend_from_slice(&repair_pkt[0..8]);

    let result = decoder.add_packet(&decoder_repair);
    assert!(result.is_ok());

    assert!(
        decoder.is_block_complete(0),
        "Block 0 should be complete after receiving repair"
    );

    let decoded = decoder.get_block_data(0).unwrap();
    assert_eq!(decoded.len(), k as usize * symbol_size as usize);
}

#[test]
fn round_robin_for_every_depth() {
    for depth in 1..=8u32 {
        let k = 3u32;
        let mut encoder = InterleavedEncoder::new(depth, k, 8, 1).unwrap();
        for n in 0..(depth * k) {
            let id = encoder.add_packet(&[n as u8; 8]).unwrap();
            assert_eq!(id, n % depth);
        }
    }
}

#[test]
fn ready_exactly_at_k() {
    let k = 5u32;
    let mut encoder = InterleavedEncoder::new(1, k, 16, 2).unwrap();
    for n in 1..=k {
        encoder.add_packet(&[n as u8; 16]).unwrap();
        let status = encoder.get_block_status(0).unwrap();
        assert_eq!(status.packet_count, n);
        assert_eq!(status.is_ready, n == k);
        assert_eq!(status.source_symbols, k);
    }
}

#[test]
fn full_block_rejects_more_symbols() {
    let mut encoder = InterleavedEncoder::new(1, 2, 8, 1).unwrap();
    encoder.add_packet(&[1; 8]).unwrap();
    encoder.add_packet(&[2; 8]).unwrap();
    assert_eq!(
        encoder.add_packet(&[3; 8]),
        Err(RaptorQError::RaptorqErrorInvalidParam)
    );
    let status = encoder.get_block_status(0).unwrap();
    assert_eq!(status.packet_count, 2);
}

#[test]
fn oversized_symbol_is_rejected_without_change() {
    let mut encoder = InterleavedEncoder::new(2, 2, 8, 1).unwrap();
    assert_eq!(
        encoder.add_packet(&[0; 9]),
        Err(RaptorQError::RaptorqErrorInvalidParam)
    );
    // The cursor did not move: the next symbol still goes to block 0.
    assert_eq!(encoder.add_packet(&[0; 8]), Ok(0));
    assert_eq!(encoder.get_block_status(0).unwrap().packet_count, 1);
}

#[test]
fn unsupported_geometry_is_rejected() {
    // More source symbols than one block of the primitive holds.
    assert!(InterleavedEncoder::new(1, 56404, 8, 1).is_none());
    // Repair identifiers beyond the 24-bit range.
    assert!(InterleavedEncoder::new(1, 4, 8, 16777212).is_some());
    assert!(InterleavedEncoder::new(1, 4, 8, 16777213).is_none());
}

#[test]
fn repair_resets_block_and_advances_identifier() {
    let depth = 3u32;
    let mut encoder = InterleavedEncoder::new(depth, 2, 8, 3).unwrap();
    for n in 0..6u8 {
        encoder.add_packet(&[n; 8]).unwrap();
    }
    let before = encoder.get_block_status(1).unwrap();
    assert_eq!(before.block_id, 1);
    encoder.generate_repair(1).unwrap();
    let after = encoder.get_block_status(1).unwrap();
    assert_eq!(after.packet_count, 0);
    assert!(!after.is_ready);
    assert_eq!(after.block_id, 1 + depth);
    // The other blocks are untouched.
    assert_eq!(encoder.get_block_status(0).unwrap().packet_count, 2);
    assert_eq!(encoder.get_block_status(2).unwrap().packet_count, 2);
    // A second request on the emptied block fails.
    assert_eq!(
        encoder.generate_repair(1),
        Err(RaptorQError::RaptorqErrorNotComplete)
    );
}

#[test]
fn repair_frames_carry_block_and_symbol_identifiers() {
    let k = 4u32;
    let repair = 3u32;
    let ss = 16usize;
    let mut encoder = InterleavedEncoder::new(2, k, ss as u16, repair).unwrap();
    for n in 0..8usize {
        encoder.add_packet(&pattern(n, ss)).unwrap();
    }
    let frames = encoder.generate_repair(1).unwrap();
    assert_eq!(frames.len(), repair as usize * (8 + ss));
    for i in 0..repair as usize {
        let f = &frames[i * (8 + ss)..(i + 1) * (8 + ss)];
        assert_eq!(&f[0..4], &1u32.to_be_bytes());
        assert_eq!(&f[4..8], &(k + i as u32).to_be_bytes());
    }
    // Repair symbols are derived data, not copies of the source symbols.
    let sources: Vec<Vec<u8>> = (0..4).map(|j| pattern(2 * j + 1, ss)).collect();
    for i in 0..repair as usize {
        let payload = &frames[i * (8 + ss) + 8..(i + 1) * (8 + ss)];
        assert!(sources.iter().all(|s| s.as_slice() != payload));
    }
}

#[test]
fn source_frames_are_padded_and_numbered() {
    let mut encoder = InterleavedEncoder::new(1, 4, 8, 1).unwrap();
    encoder.add_packet(&[7, 7, 7]).unwrap();
    encoder.add_packet(&[1, 2, 3, 4, 5, 6, 7, 8]).unwrap();
    let frames = encoder.get_source_packets(0).unwrap();
    assert_eq!(
        frames,
        vec![
            0, 0, 0, 0, 0, 0, 0, 0, 7, 7, 7, 0, 0, 0, 0, 0, //
            0, 0, 0, 0, 0, 0, 0, 1, 1, 2, 3, 4, 5, 6, 7, 8,
        ]
    );
    // Reading the frames does not reset the block.
    assert_eq!(encoder.get_block_status(0).unwrap().packet_count, 2);
}

#[test]
fn encoder_errors() {
    let mut encoder = InterleavedEncoder::new(2, 2, 8, 1).unwrap();
    assert_eq!(
        encoder.get_block_status(2).err(),
        Some(RaptorQError::RaptorqErrorInvalidParam)
    );
    assert_eq!(
        encoder.generate_repair(2),
        Err(RaptorQError::RaptorqErrorInvalidParam)
    );
    assert_eq!(
        encoder.get_source_packets(2),
        Err(RaptorQError::RaptorqErrorInvalidParam)
    );
    assert_eq!(
        encoder.get_source_packets(0),
        Err(RaptorQError::RaptorqErrorNotComplete)
    );
    encoder.add_packet(&[1; 8]).unwrap();
    assert_eq!(
        encoder.generate_repair(0),
        Err(RaptorQError::RaptorqErrorNotComplete)
    );
}

#[test]
fn oti_of_encoder() {
    let encoder = InterleavedEncoder::new(4, 8, 1200, 4).unwrap();
    // 8 * 1200 = 9600 = 0x2580 bytes, symbol size 0x04B0, one block, one sub-block, alignment 8.
    assert_eq!(
        encoder.get_oti(),
        [0, 0, 0, 0x25, 0x80, 0, 0x04, 0xB0, 1, 0, 1, 8]
    );
}

#[test]
fn oti_round_trip() {
    let cases = [
        (0u64, 8u16, 1u8, 1u16, 8u8),
        (9600, 1200, 1, 1, 8),
        (942574504275, 65535, 255, 65535, 255),
        (1099511627775, 1, 0, 0, 1),
    ];
    for (tl, ss, sb, sub, al) in cases {
        let oti = Oti::new(tl, ss, sb, sub, al);
        let bytes = oti.serialize();
        assert_eq!(bytes[5], 0);
        assert_eq!(Oti::deserialize(&bytes), oti);
    }
}

#[test]
fn round_trip_restores_every_block() {
    let depth = 3u32;
    let k = 4u32;
    let ss = 24usize;
    let mut encoder = InterleavedEncoder::new(depth, k, ss as u16, 2).unwrap();
    let symbols: Vec<Vec<u8>> = (0..(depth * k) as usize).map(|i| pattern(i, ss)).collect();
    for s in &symbols {
        encoder.add_packet(s).unwrap();
    }
    let mut decoder = InterleavedDecoder::new(&encoder.get_oti(), depth).unwrap();
    for b in 0..depth as usize {
        let frames = encoder.get_source_packets(b).unwrap();
        for f in frames.chunks(8 + ss) {
            decoder.add_packet(&reframe(f)).unwrap();
        }
    }
    for b in 0..depth as usize {
        assert!(decoder.is_block_complete(b));
        let expected: Vec<u8> = (0..k as usize)
            .flat_map(|j| symbols[j * depth as usize + b].clone())
            .collect();
        assert_eq!(decoder.get_block_data(b).unwrap(), expected);
    }
}

#[test]
fn last_source_symbol_reports_completion() {
    let mut encoder = InterleavedEncoder::new(2, 2, 8, 1).unwrap();
    for n in 0..4u8 {
        encoder.add_packet(&[n; 8]).unwrap();
    }
    let mut decoder = InterleavedDecoder::new(&encoder.get_oti(), 2).unwrap();
    let frames = encoder.get_source_packets(1).unwrap();
    assert_eq!(decoder.add_packet(&reframe(&frames[0..16])), Ok(None));
    assert_eq!(decoder.add_packet(&reframe(&frames[16..32])), Ok(Some(1)));
    assert_eq!(decoder.get_block_data(1).unwrap(), vec![1, 1, 1, 1, 1, 1, 1, 1, 3, 3, 3, 3, 3, 3, 3, 3]);
    // A late duplicate for a complete block is ignored.
    assert_eq!(decoder.add_packet(&reframe(&frames[0..16])), Ok(None));
    assert!(decoder.is_block_complete(1));
}

#[test]
fn loss_of_any_one_source_symbol_is_recovered() {
    let k = 4u32;
    let ss = TEST_SYMBOL_SIZE as usize;
    for lost in 0..k as usize {
        let mut encoder = InterleavedEncoder::new(1, k, ss as u16, 4).unwrap();
        let symbols: Vec<Vec<u8>> = (0..k as usize).map(|i| pattern(i, ss)).collect();
        for s in &symbols {
            encoder.add_packet(s).unwrap();
        }
        let sources = encoder.get_source_packets(0).unwrap();
        let repair = encoder.generate_repair(0).unwrap();
        let mut decoder = InterleavedDecoder::new(&encoder.get_oti(), 1).unwrap();
        for (i, f) in sources.chunks(8 + ss).enumerate() {
            if i != lost {
                assert_eq!(decoder.add_packet(&reframe(f)), Ok(None));
            }
        }
        assert_eq!(decoder.add_packet(&reframe(&repair[0..8 + ss])), Ok(Some(0)));
        assert_eq!(decoder.get_block_data(0).unwrap(), symbols.concat());
    }
}

#[test]
fn stale_frame_leaves_block_unchanged() {
    let mut encoder = InterleavedEncoder::new(2, 2, 8, 1).unwrap();
    for n in 0..4u8 {
        encoder.add_packet(&[n; 8]).unwrap();
    }
    let frames = encoder.get_source_packets(0).unwrap();
    let mut decoder = InterleavedDecoder::new(&encoder.get_oti(), 2).unwrap();
    decoder.reset_block(0).unwrap();
    assert_eq!(decoder.get_block_id(0), Some(2));
    // Block 0 now expects identifier 2; frames of identifier 0 are stale.
    assert_eq!(decoder.add_packet(&reframe(&frames[0..16])), Ok(None));
    assert_eq!(decoder.add_packet(&reframe(&frames[16..32])), Ok(None));
    assert!(!decoder.is_block_complete(0));
    assert_eq!(decoder.get_block_id(0), Some(2));
}

#[test]
fn newer_identifier_starts_a_fresh_cycle() {
    let mut encoder = InterleavedEncoder::new(1, 2, 8, 1).unwrap();
    encoder.add_packet(&[1; 8]).unwrap();
    encoder.add_packet(&[2; 8]).unwrap();
    let first = encoder.get_source_packets(0).unwrap();
    encoder.generate_repair(0).unwrap();
    encoder.add_packet(&[3; 8]).unwrap();
    encoder.add_packet(&[4; 8]).unwrap();
    let second = encoder.get_source_packets(0).unwrap();

    let mut decoder = InterleavedDecoder::new(&encoder.get_oti(), 1).unwrap();
    // Half of cycle 0 arrives, then cycle 1 begins: the half is discarded.
    assert_eq!(decoder.add_packet(&reframe(&first[0..16])), Ok(None));
    assert_eq!(decoder.add_packet(&reframe(&second[16..32])), Ok(None));
    assert_eq!(decoder.get_block_id(0), Some(1));
    // Symbol 0 of cycle 1 completes it with cycle 1's data only.
    assert_eq!(decoder.add_packet(&reframe(&second[0..16])), Ok(Some(0)));
    assert_eq!(decoder.get_block_data(0).unwrap(), vec![3, 3, 3, 3, 3, 3, 3, 3, 4, 4, 4, 4, 4, 4, 4, 4]);
    // The rest of cycle 0 is now stale.
    assert_eq!(decoder.add_packet(&reframe(&first[16..32])), Ok(None));
}

#[test]
fn decoder_rejects_malformed_frames() {
    let encoder = InterleavedEncoder::new(2, 2, 8, 1).unwrap();
    let mut decoder = InterleavedDecoder::new(&encoder.get_oti(), 2).unwrap();
    assert_eq!(decoder.add_packet(&[0; 7]), Err(RaptorQError::RaptorqErrorInvalidParam));
    assert_eq!(decoder.add_packet(&[0; 15]), Err(RaptorQError::RaptorqErrorInvalidParam));
    let mut frame = vec![0u8; 8];
    frame.extend_from_slice(&0u32.to_be_bytes());
    frame.extend_from_slice(&16777216u32.to_be_bytes());
    assert_eq!(decoder.add_packet(&frame), Err(RaptorQError::RaptorqErrorInvalidParam));
}

#[test]
fn decoder_errors_and_ranges() {
    let encoder = InterleavedEncoder::new(2, 2, 8, 1).unwrap();
    let oti = encoder.get_oti();
    assert!(InterleavedDecoder::new(&oti, 0).is_none());
    assert!(InterleavedDecoder::new(&oti, 9).is_none());
    // A record with symbol size zero describes no block.
    let mut bad = oti;
    bad[6] = 0;
    bad[7] = 0;
    assert!(InterleavedDecoder::new(&bad, 2).is_none());
    let mut decoder = InterleavedDecoder::new(&oti, 2).unwrap();
    assert_eq!(decoder.symbol_size(), 8);
    assert_eq!(decoder.get_block_data(0), Err(RaptorQError::RaptorqErrorNotComplete));
    assert_eq!(decoder.get_block_data(2), Err(RaptorQError::RaptorqErrorInvalidParam));
    assert_eq!(decoder.reset_block(2), Err(RaptorQError::RaptorqErrorInvalidParam));
    assert_eq!(decoder.get_block_id(2), None);
    assert!(!decoder.is_block_complete(2));
    assert_eq!(decoder.get_block_id(1), Some(1));
    decoder.reset_block(1).unwrap();
    assert_eq!(decoder.get_block_id(1), Some(3));
}

#[test]
fn error_codes() {
    assert_eq!(RaptorQError::RaptorqOk.code(), 0);
    assert_eq!(RaptorQError::RaptorqError.code(), -1);
    assert_eq!(RaptorQError::RaptorqErrorInvalidParam.code(), -2);
    assert_eq!(RaptorQError::RaptorqErrorBufferTooSmall.code(), -3);
    assert_eq!(RaptorQError::RaptorqErrorNotComplete.code(), -4);
}

#[test]
fn odd_symbol_size_uses_byte_alignment() {
    let ss = 100usize;
    let mut encoder = InterleavedEncoder::new(2, 2, ss as u16, 1).unwrap();
    let oti = encoder.get_oti();
    assert_eq!(oti[11], 1);
    let symbols: Vec<Vec<u8>> = (0..4).map(|i| pattern(i, ss)).collect();
    for s in &symbols {
        encoder.add_packet(s).unwrap();
    }
    let mut decoder = InterleavedDecoder::new(&oti, 2).unwrap();
    let frames = encoder.get_source_packets(1).unwrap();
    for f in frames.chunks(8 + ss) {
        decoder.add_packet(&reframe(f)).unwrap();
    }
    let mut expected = symbols[1].clone();
    expected.extend_from_slice(&symbols[3]);
    assert_eq!(decoder.get_block_data(1).unwrap(), expected);
    assert_eq!(encoder.generate_repair(1).unwrap().len(), 8 + ss);
}

#[test]
fn ignored_frames_are_not_checked_against_the_symbol_id_range() {
    let mut encoder = InterleavedEncoder::new(1, 1, 8, 1).unwrap();
    encoder.add_packet(&[5; 8]).unwrap();
    let mut decoder = InterleavedDecoder::new(&encoder.get_oti(), 1).unwrap();
    let frames = encoder.get_source_packets(0).unwrap();
    assert_eq!(decoder.add_packet(&reframe(&frames)), Ok(Some(0)));
    // A late frame for the complete block, with an out-of-range symbol id.
    let mut late = vec![0u8; 8];
    late.extend_from_slice(&0u32.to_be_bytes());
    late.extend_from_slice(&16777216u32.to_be_bytes());
    assert_eq!(decoder.add_packet(&late), Ok(None));
    assert_eq!(decoder.get_block_data(0).unwrap(), vec![5; 8]);
    // A stale frame, after the block moved on, with an out-of-range symbol id.
    decoder.reset_block(0).unwrap();
    assert_eq!(decoder.add_packet(&late), Ok(None));
    assert_eq!(decoder.get_block_id(0), Some(1));
    // The same id on a frame that would reach the primitive is rejected.
    let mut live = vec![0u8; 8];
    live.extend_from_slice(&1u32.to_be_bytes());
    live.extend_from_slice(&16777216u32.to_be_bytes());
    assert_eq!(decoder.add_packet(&live), Err(RaptorQError::RaptorqErrorInvalidParam));
}

#[test]
fn repair_frame_layout() {
    let (k, repair, ss) = (3u32, 2u32, 24usize);
    let mut encoder = InterleavedEncoder::new(1, k, ss as u16, repair).unwrap();
    for i in 0..k as usize {
        encoder.add_packet(&pattern(i, ss)).unwrap();
    }
    let frames = encoder.generate_repair(0).unwrap();
    assert_eq!(frames.len(), repair as usize * (8 + ss));
    assert_eq!(&frames[0..8], &[0, 0, 0, 0, 0, 0, 0, 3]);
    assert_eq!(&frames[8 + ss..16 + ss], &[0, 0, 0, 0, 0, 0, 0, 4]);
    let status = encoder.get_block_status(0).unwrap();
    assert_eq!((status.block_id, status.packet_count, status.is_ready), (1, 0, false));
}
