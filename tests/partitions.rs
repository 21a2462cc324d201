use win_partitions::win_api::{
    aborts_enumeration, get_logical_drive_from, letters_of_mask, vec_u16_to_string, DriveType, OsError,
};
use win_partitions::windows_partitions::{
    get_partitions, partition_from_report, report_aborts, DriveReport, WindowsPartition,
};

const NOT_READY: i32 = 21;
const ACCESS_DENIED: i32 = 5;

fn wide(s: &str) -> Vec<u16> {
    s.encode_utf16().collect()
}

fn padded(s: &str, len: usize) -> Vec<u16> {
    let mut v = wide(s);
    v.resize(len, 0);
    v
}

fn ready_drive(drive_type: DriveType, total: u64, free: u64, name: &str, fs: &str) -> DriveReport {
    DriveReport {
        drive_type,
        free_space: Ok((free, total, free)),
        volume: Ok((name.to_string(), fs.to_string(), 0x1234, 255, 0)),
    }
}

fn empty_drive(drive_type: DriveType) -> DriveReport {
    DriveReport {
        drive_type,
        free_space: Err(OsError { code: NOT_READY }),
        volume: Err(OsError { code: NOT_READY }),
    }
}

/// Bits of the letters C and D.
const MASK_C_D: u32 = 0b1100;

fn host_c_d() -> Vec<DriveReport> {
    vec![
        ready_drive(DriveType::DriveFixed, 100, 40, "System", "NTFS"),
        empty_drive(DriveType::DriveCDRom),
    ]
}

#[test]
fn get_volume_name_test() {
    let res = get_partitions(MASK_C_D, 0, &host_c_d());
    for item in res.unwrap() {
        println!("{:?}", item)
    }
}

#[test]
fn end_to_end_fixed_and_empty_cdrom() {
    let parts = get_partitions(MASK_C_D, 0, &host_c_d()).unwrap();
    assert_eq!(parts.len(), 2);
    let c = &parts[0];
    assert_eq!(c.letter, 'C');
    assert!(c.ready);
    assert_eq!(c.drive_type, DriveType::DriveFixed);
    assert_eq!(c.size, 100);
    assert_eq!(c.free_space, 40);
    assert_eq!(c.file_system_name, "NTFS");
    assert_eq!(c.name, "System");
    let d = &parts[1];
    assert_eq!(d.letter, 'D');
    assert!(!d.ready);
    assert_eq!(d.drive_type, DriveType::DriveCDRom);
    assert_eq!(d.size, 0);
    assert_eq!(d.free_space, 0);
    assert_eq!(d.file_system_name, "");
    assert_eq!(d.name, "");
}

#[test]
fn mask_letters_in_ascending_order() {
    assert_eq!(letters_of_mask(0b101), vec!['A', 'C']);
    assert_eq!(letters_of_mask(1 << 25), vec!['Z']);
    assert_eq!(letters_of_mask(0), Vec::<char>::new());
}

#[test]
fn mask_with_all_letters() {
    let all: Vec<char> = ('A'..='Z').collect();
    assert_eq!(letters_of_mask((1 << 26) - 1), all);
    assert_eq!(letters_of_mask(u32::MAX), all);
}

#[test]
fn mask_bits_above_z_are_ignored() {
    assert_eq!(letters_of_mask(0xFC00_0004), vec!['C']);
}

#[test]
fn mask_letter_count_matches_bits() {
    let m: u32 = 0b10_1010_0000_0000_0001_0001_0110;
    let letters = letters_of_mask(m);
    assert_eq!(letters.len() as u32, (m & ((1 << 26) - 1)).count_ones());
    assert_eq!(letters, vec!['B', 'C', 'E', 'I', 'V', 'X', 'Z']);
}

#[test]
fn zero_mask_is_the_last_error() {
    assert_eq!(get_logical_drive_from(0, 6), Err(OsError { code: 6 }));
    assert_eq!(get_logical_drive_from(0b1000, 6), Ok(vec!['D']));
    assert!(matches!(
        get_partitions(0, 6, &vec![]),
        Err(OsError { code: 6 })
    ));
}

#[test]
fn drive_type_codes() {
    assert_eq!(DriveType::from(0), DriveType::DriveUnknown);
    assert_eq!(DriveType::from(1), DriveType::DriveNoRootDir);
    assert_eq!(DriveType::from(2), DriveType::DriveRemovable);
    assert_eq!(DriveType::from(3), DriveType::DriveFixed);
    assert_eq!(DriveType::from(4), DriveType::DriveRemote);
    assert_eq!(DriveType::from(5), DriveType::DriveCDRom);
    assert_eq!(DriveType::from(6), DriveType::DriveRamDisk);
}

#[test]
fn null_padded_name_decodes() {
    assert_eq!(vec_u16_to_string(&padded("DATA", 64)), "DATA");
}

#[test]
fn all_zero_buffer_decodes_empty() {
    assert_eq!(vec_u16_to_string(&vec![0u16; 64]), "");
    assert_eq!(vec_u16_to_string(&[]), "");
}

#[test]
fn buffer_without_null_decodes_whole() {
    assert_eq!(vec_u16_to_string(&wide("NTFS")), "NTFS");
}

#[test]
fn text_after_first_null_is_dropped() {
    let mut buf = wide("AB");
    buf.push(0);
    buf.extend(wide("CD"));
    assert_eq!(vec_u16_to_string(&buf), "AB");
}

#[test]
fn unpaired_surrogate_decodes_lossily() {
    let buf: Vec<u16> = vec![0xD800, 0x41, 0];
    assert_eq!(vec_u16_to_string(&buf), "\u{FFFD}A");
}

#[test]
fn surrogate_pair_decodes_to_one_char() {
    let buf: Vec<u16> = vec![0xD83D, 0xDE00, 0, 0];
    assert_eq!(vec_u16_to_string(&buf), "\u{1F600}");
}

#[test]
fn not_ready_drive_continues_enumeration() {
    // C, D and E; D has no medium.
    let reports = vec![
        ready_drive(DriveType::DriveFixed, 500, 200, "OS", "NTFS"),
        empty_drive(DriveType::DriveRemovable),
        ready_drive(DriveType::DriveFixed, 900, 10, "Data", "exFAT"),
    ];
    let parts = get_partitions(0b11100, 0, &reports).unwrap();
    assert_eq!(parts.len(), 3);
    let d = &parts[1];
    assert_eq!(d.letter, 'D');
    assert!(!d.ready);
    assert_eq!(d.size, 0);
    assert_eq!(d.free_space, 0);
    assert_eq!(d.file_system_name, "");
    let e = &parts[2];
    assert_eq!(e.letter, 'E');
    assert!(e.ready);
    assert_eq!(e.size, 900);
    assert_eq!(e.free_space, 10);
    assert_eq!(e.file_system_name, "exFAT");
    assert_eq!(e.name, "Data");
}

#[test]
fn volume_not_ready_clears_record() {
    let report = DriveReport {
        drive_type: DriveType::DriveRemote,
        free_space: Ok((5, 80, 7)),
        volume: Err(OsError { code: NOT_READY }),
    };
    let p: WindowsPartition = partition_from_report('G', &report).unwrap();
    assert_eq!(p.letter, 'G');
    assert!(!p.ready);
    assert_eq!(p.size, 0);
    assert_eq!(p.free_space, 0);
    assert_eq!(p.name, "");
    assert_eq!(p.file_system_name, "");
    assert_eq!(p.drive_type, DriveType::DriveRemote);
}

#[test]
fn free_space_not_ready_clears_names() {
    let report = DriveReport {
        drive_type: DriveType::DriveRemovable,
        free_space: Err(OsError { code: NOT_READY }),
        volume: Ok(("Stick".to_string(), "FAT32".to_string(), 9, 255, 0)),
    };
    let parts = get_partitions(0b1000, 0, &vec![report]).unwrap();
    assert_eq!(parts.len(), 1);
    let d = &parts[0];
    assert_eq!(d.letter, 'D');
    assert!(!d.ready);
    assert_eq!(d.size, 0);
    assert_eq!(d.free_space, 0);
    assert_eq!(d.name, "");
    assert_eq!(d.file_system_name, "");
    assert_eq!(d.drive_type, DriveType::DriveRemovable);
}

#[test]
fn only_not_ready_is_tolerated() {
    assert!(!aborts_enumeration(&OsError { code: NOT_READY }));
    assert!(aborts_enumeration(&OsError { code: ACCESS_DENIED }));
    assert!(aborts_enumeration(&OsError { code: 0 }));
}

#[test]
fn aborting_reports_are_recognised() {
    assert!(!report_aborts(&empty_drive(DriveType::DriveCDRom)));
    assert!(!report_aborts(&ready_drive(DriveType::DriveFixed, 1, 1, "A", "NTFS")));
    let denied = DriveReport {
        drive_type: DriveType::DriveFixed,
        free_space: Err(OsError { code: ACCESS_DENIED }),
        volume: Err(OsError { code: NOT_READY }),
    };
    assert!(report_aborts(&denied));
    let bad_volume = DriveReport {
        drive_type: DriveType::DriveFixed,
        free_space: Ok((1, 2, 1)),
        volume: Err(OsError { code: 1117 }),
    };
    assert!(report_aborts(&bad_volume));
}

#[test]
fn reports_may_stop_at_the_aborting_drive() {
    // Letters C, D and E; D aborts, so E was never queried.
    let reports = vec![
        ready_drive(DriveType::DriveFixed, 100, 40, "System", "NTFS"),
        DriveReport {
            drive_type: DriveType::DriveFixed,
            free_space: Err(OsError { code: ACCESS_DENIED }),
            volume: Err(OsError { code: ACCESS_DENIED }),
        },
    ];
    assert!(matches!(
        get_partitions(0b11100, 0, &reports),
        Err(OsError { code: ACCESS_DENIED })
    ));
}

#[test]
fn free_space_access_denied_aborts() {
    let reports = vec![
        ready_drive(DriveType::DriveFixed, 100, 40, "System", "NTFS"),
        DriveReport {
            drive_type: DriveType::DriveFixed,
            free_space: Err(OsError { code: ACCESS_DENIED }),
            volume: Ok(("Backup".to_string(), "NTFS".to_string(), 1, 255, 0)),
        },
        empty_drive(DriveType::DriveCDRom),
    ];
    assert!(matches!(
        get_partitions(0b1110, 0, &reports),
        Err(OsError { code: ACCESS_DENIED })
    ));
}

#[test]
fn volume_error_aborts() {
    let reports = vec![
        empty_drive(DriveType::DriveCDRom),
        DriveReport {
            drive_type: DriveType::DriveFixed,
            free_space: Ok((1, 2, 1)),
            volume: Err(OsError { code: 1117 }),
        },
    ];
    assert!(matches!(
        get_partitions(0b11, 0, &reports),
        Err(OsError { code: 1117 })
    ));
}

#[test]
fn first_hard_error_wins() {
    let reports = vec![
        DriveReport {
            drive_type: DriveType::DriveFixed,
            free_space: Err(OsError { code: ACCESS_DENIED }),
            volume: Err(OsError { code: 1117 }),
        },
        DriveReport {
            drive_type: DriveType::DriveFixed,
            free_space: Err(OsError { code: 6 }),
            volume: Ok(("X".to_string(), "NTFS".to_string(), 1, 255, 0)),
        },
    ];
    assert!(matches!(
        get_partitions(0b11, 0, &reports),
        Err(OsError { code: ACCESS_DENIED })
    ));
}

#[test]
fn repeated_enumeration_same_shape() {
    let first = get_partitions(MASK_C_D, 0, &host_c_d()).unwrap();
    let later = vec![
        ready_drive(DriveType::DriveFixed, 100, 35, "System", "NTFS"),
        empty_drive(DriveType::DriveCDRom),
    ];
    let second = get_partitions(MASK_C_D, 0, &later).unwrap();
    assert_eq!(first.len(), second.len());
    for (a, b) in first.iter().zip(second.iter()) {
        assert_eq!(a.letter, b.letter);
        assert_eq!(a.ready, b.ready);
        assert_eq!(a.drive_type, b.drive_type);
    }
    assert_eq!(second[0].free_space, 35);
}
