use core_affinity::get_core_ids;
use snd::utils::dns::record_type_from_text;
use snd::utils::text::{lowered_ends_with, lowered_equals, parse_usize, to_lower};
use snd::utils::utils::{cpu_mode_to_cpu_cores, select_cores, split_fields, CpuModeError};

#[test]
fn test_cpu_mode_to_cores() {
    let cores = get_core_ids().unwrap();
    assert_eq!(cpu_mode_to_cpu_cores("random".to_owned()).unwrap().len(), 1);
    assert_eq!(
        cpu_mode_to_cpu_cores("all".to_owned()).unwrap().len(),
        cores.len()
    );
    assert_eq!(
        cpu_mode_to_cpu_cores("0".to_owned()).unwrap(),
        vec![cores[0].id]
    );
    if cores.len() > 1 {
        assert_eq!(
            cpu_mode_to_cpu_cores("0,1".to_owned()).unwrap(),
            vec![cores[0].id, cores[1].id]
        );
    }
}

#[test]
fn random_mode_picks_one_of_the_cores() {
    let cores: Vec<usize> = get_core_ids().unwrap().iter().map(|c| c.id).collect();
    for _ in 0..16 {
        let picked = cpu_mode_to_cpu_cores("RANDOM".to_owned()).unwrap();
        assert_eq!(picked.len(), 1);
        assert!(cores.contains(&picked[0]));
    }
}

#[test]
fn select_cores_all_and_random() {
    let cores = vec![0usize, 1, 2, 3];
    assert_eq!(select_cores(b"all", &cores, 2), Ok(vec![0, 1, 2, 3]));
    assert_eq!(select_cores(b"ALL", &cores, 2), Ok(vec![0, 1, 2, 3]));
    assert_eq!(select_cores(b"random", &cores, 2), Ok(vec![2]));
    assert_eq!(select_cores(b"Random", &cores, 3), Ok(vec![3]));
}

#[test]
fn select_cores_by_list() {
    let cores = vec![0usize, 1, 2, 3];
    assert_eq!(select_cores(b"0,3", &cores, 0), Ok(vec![0, 3]));
    assert_eq!(select_cores(b"2", &cores, 0), Ok(vec![2]));
    assert_eq!(select_cores(b"+1,1", &cores, 0), Ok(vec![1, 1]));
    let sparse = vec![4usize, 6];
    assert_eq!(select_cores(b"1,0", &sparse, 0), Ok(vec![6, 4]));
}

#[test]
fn select_cores_errors() {
    let cores = vec![0usize, 1, 2, 3];
    assert_eq!(select_cores(b"all", &vec![], 0), Err(CpuModeError::NoCores));
    assert_eq!(select_cores(b"0,x", &cores, 0), Err(CpuModeError::ParseNumber));
    assert_eq!(select_cores(b"", &cores, 0), Err(CpuModeError::ParseNumber));
    assert_eq!(select_cores(b"0,", &cores, 0), Err(CpuModeError::ParseNumber));
    assert_eq!(select_cores(b"4", &cores, 0), Err(CpuModeError::UnknownCore));
    assert_eq!(select_cores(b"9,x", &cores, 0), Err(CpuModeError::UnknownCore));
    assert_eq!(
        cpu_mode_to_cpu_cores("some".to_owned()),
        Err(CpuModeError::ParseNumber)
    );
}

#[test]
fn split_fields_keeps_empty_fields() {
    assert_eq!(split_fields(b"0,1,2", b','), vec![b"0".to_vec(), b"1".to_vec(), b"2".to_vec()]);
    assert_eq!(split_fields(b"", b','), vec![Vec::<u8>::new()]);
    assert_eq!(split_fields(b",a,", b','), vec![b"".to_vec(), b"a".to_vec(), b"".to_vec()]);
}

#[test]
fn parse_usize_like_std() {
    for text in ["0", "7", "+7", "0012", "18446744073709551615", "18446744073709551616", "", "+", "-1", "1 ", "1a", "++1"] {
        assert_eq!(parse_usize(text.as_bytes()), text.parse::<usize>().ok(), "{:?}", text);
    }
    assert_eq!(parse_usize(b"1234"), Some(1234));
}

#[test]
fn lower_case_comparison() {
    assert_eq!(to_lower(b'A'), b'a');
    assert_eq!(to_lower(b'Z'), b'z');
    assert_eq!(to_lower(b'@'), b'@');
    assert_eq!(to_lower(b'['), b'[');
    assert_eq!(to_lower(b'q'), b'q');
    assert!(lowered_ends_with(b"Report.JSON", b".json"));
    assert!(!lowered_ends_with(b"Report.JSO", b".json"));
    assert!(!lowered_ends_with(b"son", b".json"));
    assert!(lowered_equals(b"StdOut", b"stdout"));
    assert!(!lowered_equals(b"stdout ", b"stdout"));
}

#[test]
fn record_types_by_mnemonic() {
    assert_eq!(record_type_from_text(b"A"), Some(1));
    assert_eq!(record_type_from_text(b"NS"), Some(2));
    assert_eq!(record_type_from_text(b"AAAA"), Some(28));
    assert_eq!(record_type_from_text(b"MX"), Some(15));
    assert_eq!(record_type_from_text(b"aaaa"), None);
    assert_eq!(record_type_from_text(b"Mx"), None);
    assert_eq!(record_type_from_text(b"NOPE"), None);
    assert_eq!(record_type_from_text(b""), None);
    assert_eq!(record_type_from_text(&[0xff, 0xfe]), None);
}
