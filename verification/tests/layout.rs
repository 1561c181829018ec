use deentropize::bitcount::{bitcount_file, BitCount};
use deentropize::layout::{calculate_file, write_block, write_file, LowEntropyFile};

#[test]
fn test_calculate_file_three_bytes() {
    let result = calculate_file(BitCount {
        one_bits: 11,
        total_bytes: 3,
    });
    assert_eq!(
        result,
        LowEntropyFile {
            zero_bytes: 1,
            middle_byte: 0b0000111,
            one_bytes: 1
        }
    );
}

#[test]
fn test_calculate_file_five_bytes() {
    let result = calculate_file(BitCount {
        one_bits: 11,
        total_bytes: 5,
    });
    assert_eq!(
        result,
        LowEntropyFile {
            zero_bytes: 3,
            middle_byte: 0b0000111,
            one_bytes: 1
        }
    );
}

#[test]
fn test_calculate_file_whole_byte_of_ones() {
    let result = calculate_file(BitCount {
        one_bits: 8,
        total_bytes: 10,
    });
    assert_eq!(
        result,
        LowEntropyFile {
            zero_bytes: 8,
            middle_byte: 0b0000000,
            one_bytes: 1
        }
    );
}

#[test]
fn test_calculate_file_no_ones() {
    let result = calculate_file(BitCount {
        one_bits: 0,
        total_bytes: 4,
    });
    assert_eq!(
        result,
        LowEntropyFile {
            zero_bytes: 3,
            middle_byte: 0b0000000,
            one_bytes: 0
        }
    );
}

#[test]
fn middle_byte_for_each_number_of_left_over_bits() {
    let expected: [u8; 8] = [0x00, 0x01, 0x03, 0x07, 0x0f, 0x1f, 0x3f, 0x7f];
    for k in 0..8usize {
        let layout = calculate_file(BitCount {
            one_bits: 16 + k,
            total_bytes: 5,
        });
        assert_eq!(layout.middle_byte, expected[k]);
        assert_eq!(layout.one_bytes, 2);
        assert_eq!(layout.zero_bytes, 2);
    }
}

#[test]
fn middle_byte_has_only_its_low_bits_set() {
    for one_bits in 0..40usize {
        let layout = calculate_file(BitCount {
            one_bits,
            total_bytes: 5,
        });
        for i in 0..8usize {
            let set = (layout.middle_byte >> i) & 1 == 1;
            assert_eq!(set, i < one_bits % 8);
        }
    }
}

#[test]
fn layout_keeps_length_and_set_bits() {
    for total_bytes in 1..20usize {
        for one_bits in 0..(8 * total_bytes) {
            let layout = calculate_file(BitCount {
                one_bits,
                total_bytes,
            });
            assert_eq!(layout.zero_bytes + 1 + layout.one_bytes, total_bytes);
            assert_eq!(
                8 * layout.one_bytes + layout.middle_byte.count_ones() as usize,
                one_bits
            );
        }
    }
}

#[test]
fn layout_of_a_single_byte() {
    assert_eq!(
        calculate_file(BitCount {
            one_bits: 7,
            total_bytes: 1
        }),
        LowEntropyFile {
            zero_bytes: 0,
            middle_byte: 0x7f,
            one_bytes: 0
        }
    );
}

#[test]
fn layout_with_every_bit_but_one_set() {
    assert_eq!(
        calculate_file(BitCount {
            one_bits: 23,
            total_bytes: 3
        }),
        LowEntropyFile {
            zero_bytes: 0,
            middle_byte: 0x7f,
            one_bytes: 2
        }
    );
}

#[test]
fn write_file_writes_the_three_regions_in_order() {
    let mut out: Vec<u8> = Vec::new();
    write_file(
        LowEntropyFile {
            zero_bytes: 3,
            middle_byte: 0x07,
            one_bytes: 2,
        },
        &mut out,
    );
    assert_eq!(out, vec![0x00, 0x00, 0x00, 0x07, 0xff, 0xff]);
}

#[test]
fn write_file_with_empty_runs_writes_the_middle_byte_alone() {
    let mut out: Vec<u8> = Vec::new();
    write_file(
        LowEntropyFile {
            zero_bytes: 0,
            middle_byte: 0x1f,
            one_bytes: 0,
        },
        &mut out,
    );
    assert_eq!(out, vec![0x1f]);
}

#[test]
fn write_file_appends_to_what_the_sink_holds() {
    let mut out: Vec<u8> = vec![0xaa, 0xbb];
    write_file(
        LowEntropyFile {
            zero_bytes: 1,
            middle_byte: 0x01,
            one_bytes: 1,
        },
        &mut out,
    );
    assert_eq!(out, vec![0xaa, 0xbb, 0x00, 0x01, 0xff]);
}

#[test]
fn written_layout_has_the_count_it_was_made_for() {
    let count = BitCount {
        one_bits: 29,
        total_bytes: 9,
    };
    let mut out: Vec<u8> = Vec::new();
    write_file(calculate_file(count), &mut out);
    assert_eq!(out, vec![0, 0, 0, 0, 0, 0x1f, 0xff, 0xff, 0xff]);
    assert_eq!(bitcount_file(&out, 4), count);
}

#[test]
fn byte_at_gives_each_byte_of_the_layout() {
    let layout = LowEntropyFile {
        zero_bytes: 2,
        middle_byte: 0x03,
        one_bytes: 3,
    };
    let mut whole: Vec<u8> = Vec::new();
    write_file(layout, &mut whole);
    assert_eq!(whole, vec![0x00, 0x00, 0x03, 0xff, 0xff, 0xff]);
    for i in 0..whole.len() {
        assert_eq!(layout.byte_at(i), whole[i]);
    }
}

#[test]
fn write_block_writes_the_layout_piece_by_piece() {
    let layout = LowEntropyFile {
        zero_bytes: 3,
        middle_byte: 0x0f,
        one_bytes: 4,
    };
    let mut block: Vec<u8> = Vec::new();
    assert_eq!(write_block(layout, 0, 3, &mut block), 3);
    assert_eq!(block, vec![0x00, 0x00, 0x00]);
    block.clear();
    assert_eq!(write_block(layout, 3, 3, &mut block), 3);
    assert_eq!(block, vec![0x0f, 0xff, 0xff]);
    block.clear();
    assert_eq!(write_block(layout, 6, 3, &mut block), 2);
    assert_eq!(block, vec![0xff, 0xff]);
    block.clear();
    assert_eq!(write_block(layout, 8, 3, &mut block), 0);
    assert_eq!(block, Vec::<u8>::new());
}

#[test]
fn write_block_with_block_size_zero_writes_nothing() {
    let layout = LowEntropyFile {
        zero_bytes: 1,
        middle_byte: 0x01,
        one_bytes: 1,
    };
    let mut block: Vec<u8> = vec![0x55];
    assert_eq!(write_block(layout, 0, 0, &mut block), 0);
    assert_eq!(block, vec![0x55]);
}

#[test]
fn blocks_put_together_are_the_whole_layout() {
    let layout = calculate_file(BitCount {
        one_bits: 1234,
        total_bytes: 500,
    });
    let mut whole: Vec<u8> = Vec::new();
    write_file(layout, &mut whole);
    let mut pieces: Vec<u8> = Vec::new();
    let mut offset = 0usize;
    loop {
        let n = write_block(layout, offset, 64, &mut pieces);
        if n == 0 {
            break;
        }
        offset += n;
    }
    assert_eq!(pieces, whole);
    assert_eq!(offset, 500);
}
