use edgefirst_client::multipart::{part_count_of, part_len_of, plan_parts, UploadPart, PART_SIZE};

const MIB: usize = 1024 * 1024;

#[test]
fn part_counts_round_up() {
    assert_eq!(PART_SIZE, 100 * MIB);
    assert_eq!(part_count_of(0), 0);
    assert_eq!(part_count_of(1), 1);
    assert_eq!(part_count_of(PART_SIZE), 1);
    assert_eq!(part_count_of(PART_SIZE + 1), 2);
    assert_eq!(part_count_of(3 * PART_SIZE), 3);
}

#[test]
fn last_part_holds_the_remainder() {
    assert_eq!(part_len_of(250 * MIB, 0), PART_SIZE);
    assert_eq!(part_len_of(250 * MIB, 2), 50 * MIB);
    assert_eq!(part_len_of(200 * MIB, 1), PART_SIZE);
}

#[test]
fn parts_of_a_file() {
    let parts = plan_parts(250 * MIB);
    assert_eq!(
        parts,
        vec![
            UploadPart { part_number: 1, offset: 0, length: PART_SIZE },
            UploadPart { part_number: 2, offset: PART_SIZE as u64, length: PART_SIZE },
            UploadPart { part_number: 3, offset: 2 * PART_SIZE as u64, length: 50 * MIB },
        ]
    );
    assert!(plan_parts(0).is_empty());
}

#[test]
fn parts_tile_the_file() {
    for size in [1usize, 7, PART_SIZE - 1, PART_SIZE, PART_SIZE + 1, 5 * PART_SIZE + 3] {
        let parts = plan_parts(size);
        let mut end = 0u64;
        for p in &parts {
            assert_eq!(p.offset, end);
            assert!(p.length >= 1 && p.length <= PART_SIZE);
            end += p.length as u64;
        }
        assert_eq!(end, size as u64);
    }
}
