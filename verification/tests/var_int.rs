use iso_buf::error::IsobufError;
use iso_buf::reader::Reader;
use iso_buf::var_int::encode_var_int;

#[test]
fn test_var_int_round_trip_boundaries() {
    let values: [u64; 8] = [
        0,
        252,
        253,
        65535,
        65536,
        4294967295,
        4294967296,
        u64::MAX,
    ];
    for &value in values.iter() {
        let encoded = encode_var_int(value);
        let mut reader = Reader::new(encoded);
        assert_eq!(reader.read_var_int().unwrap(), value);
        assert!(reader.eof());
    }
}

#[test]
fn test_encode_var_int_forms() {
    assert_eq!(encode_var_int(0), vec![0x00]);
    assert_eq!(encode_var_int(252), vec![0xfc]);
    assert_eq!(encode_var_int(253), vec![0xfd, 0x00, 0xfd]);
    assert_eq!(encode_var_int(65535), vec![0xfd, 0xff, 0xff]);
    assert_eq!(encode_var_int(65536), vec![0xfe, 0x00, 0x01, 0x00, 0x00]);
    assert_eq!(
        encode_var_int(4294967296),
        vec![0xff, 0x00, 0x00, 0x00, 0x01, 0x00, 0x00, 0x00, 0x00]
    );
}

#[test]
fn test_var_int_non_minimal_rejected() {
    // 252 forced into the 2-byte form
    let data = vec![0xfd, 0x00, 0xfc];
    let mut reader = Reader::new(data.clone());
    assert!(matches!(
        reader.read_var_int_buf().unwrap_err(),
        IsobufError::NonMinimalEncodingError { source: None }
    ));
    // the whole invalid encoding has been consumed
    assert_eq!(reader.remainder_len(), 0);
    let mut reader = Reader::new(data);
    assert!(matches!(
        reader.read_var_int().unwrap_err(),
        IsobufError::NonMinimalEncodingError { source: None }
    ));

    // 65535 forced into the 4-byte form
    let data = vec![0xfe, 0x00, 0x00, 0xff, 0xff];
    let mut reader = Reader::new(data.clone());
    assert!(matches!(
        reader.read_var_int_buf().unwrap_err(),
        IsobufError::NonMinimalEncodingError { source: None }
    ));
    assert_eq!(reader.remainder_len(), 0);
    let mut reader = Reader::new(data);
    assert!(matches!(
        reader.read_var_int().unwrap_err(),
        IsobufError::NonMinimalEncodingError { source: None }
    ));

    // 4294967295 forced into the 8-byte form
    let data = vec![0xff, 0x00, 0x00, 0x00, 0x00, 0xff, 0xff, 0xff, 0xff];
    let mut reader = Reader::new(data.clone());
    assert!(matches!(
        reader.read_var_int_buf().unwrap_err(),
        IsobufError::NonMinimalEncodingError { source: None }
    ));
    assert_eq!(reader.remainder_len(), 0);
    let mut reader = Reader::new(data);
    assert!(matches!(
        reader.read_var_int().unwrap_err(),
        IsobufError::NonMinimalEncodingError { source: None }
    ));
}

#[test]
fn test_var_int_buf_nine_bytes_above_floor() {
    let data = vec![0xff, 0x00, 0x00, 0x00, 0x01, 0x00, 0x00, 0x00, 0x01];
    let mut reader = Reader::new(data.clone());
    assert_eq!(reader.read_var_int_buf().unwrap(), data);
    let mut reader = Reader::new(data);
    assert_eq!(reader.read_var_int().unwrap(), 0x1_0000_0001);
}

#[test]
fn test_var_int_payload_shortfall_chains_source() {
    let mut reader = Reader::new(vec![0xfd, 0x00]);
    match reader.read_var_int_buf().unwrap_err() {
        IsobufError::NotEnoughDataError {
            source: Some(inner),
        } => {
            assert!(matches!(
                *inner,
                IsobufError::NotEnoughDataError { source: None }
            ));
        }
        other => panic!("expected a chained shortfall, got {:?}", other),
    }
    // the first byte stays consumed
    assert_eq!(reader.remainder_len(), 1);
}

#[test]
fn test_var_int_discriminant_shortfall() {
    let mut reader = Reader::new(vec![]);
    match reader.read_var_int().unwrap_err() {
        IsobufError::NotEnoughDataError {
            source: Some(inner),
        } => {
            assert!(matches!(
                *inner,
                IsobufError::NotEnoughDataError { source: None }
            ));
        }
        other => panic!("expected a chained shortfall, got {:?}", other),
    }
    assert_eq!(reader.remainder_len(), 0);
}

#[test]
fn test_fuzz_never_overruns() {
    let mut state: u64 = 0x2545f4914f6cdd1d;
    let mut next = move || {
        state = state
            .wrapping_mul(6364136223846793005)
            .wrapping_add(1442695040888963407);
        state >> 33
    };
    for _ in 0..300 {
        let len = (next() % 24) as usize;
        let mut data = Vec::with_capacity(len);
        for _ in 0..len {
            data.push((next() % 256) as u8);
        }
        let total = data.len();
        let mut reader = Reader::new(data);
        let mut last_remaining = reader.remainder_len();
        assert!(last_remaining <= total);
        for _ in 0..8 {
            match next() % 7 {
                0 => {
                    let n = (next() % 32) as usize;
                    let _ = reader.read(n);
                }
                1 => {
                    let _ = reader.read_u8();
                }
                2 => {
                    let _ = reader.read_u16_be();
                }
                3 => {
                    let _ = reader.read_u32_be();
                }
                4 => {
                    let _ = reader.read_u64_be();
                }
                5 => {
                    let _ = reader.read_var_int();
                }
                _ => {
                    let _ = reader.read_var_int_buf();
                }
            }
            let remaining = reader.remainder_len();
            // the cursor never runs past the end and never moves back
            assert!(remaining <= total);
            assert!(remaining <= last_remaining);
            last_remaining = remaining;
        }
    }
}
