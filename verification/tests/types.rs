use rand::distributions::Alphanumeric;
use rand::{thread_rng, Rng};

use rosu_mem::address::Address;
use rosu_mem::error::{OsFault, ProcessError};
use rosu_mem::process::{ProcessTraits, RawReader};

pub struct FakeProccess {
    buff: Vec<u8>,
}

impl RawReader for FakeProccess {
    fn read_bytes(&self, addr: usize, len: usize) -> Result<Vec<u8>, OsFault> {
        // Addr - starting index
        Ok(self.buff[addr..addr + len].to_vec())
    }
}

fn random_string(len: u32) -> String {
    let mut rng = thread_rng();
    (0..len).map(|_| rng.sample(Alphanumeric) as char).collect()
}

fn utf16_bytes(text: &str) -> Vec<u8> {
    text.bytes().flat_map(|byte| [byte, 0]).collect()
}

#[test]
fn test_uleb() {
    let buff = vec![
        0x0B, 0x04, 0x74, 0x65, 0x73, 0x74, 0x00, 0x00, 0x00, 0x00, 0x0A,
    ];

    let p = FakeProccess { buff };

    // Skipping that one 0x0b byte
    assert_eq!(p.read_uleb128(Address::I32(1)).unwrap(), 4);
}

#[test]
fn test_string() {
    for len in [0u32, 1, 2, 4, 8, 16, 32] {
        let mut buff = vec![0x0; 4]; // Random 4 bytes
        buff.extend_from_slice(&len.to_le_bytes());

        let random_string = random_string(len);

        // convert to UTF-16 bytes
        buff.extend(utf16_bytes(&random_string));

        let p = FakeProccess { buff };

        let read_string = p.read_string(Address::I32(0)).unwrap();
        assert_eq!(read_string, random_string);
    }
}

#[test]
fn test_string_with_limit_fail_all() {
    for len in [10u32, 16, 32, 100, 256, 1024] {
        let mut buff = vec![0x0; 4]; // Random 4 bytes
        buff.extend_from_slice(&len.to_le_bytes());

        let random_string = random_string(len);

        // convert to UTF-16 bytes
        buff.extend(utf16_bytes(&random_string));

        let p = FakeProccess { buff };

        let read_string = p.read_string_with_limit(Address::I32(0), 8);
        assert!(read_string.is_err());
        assert!(matches!(read_string, Err(ProcessError::StringTooLarge)))
    }
}

#[test]
fn test_string_with_limit_no_fail() {
    for len in [10u32, 16, 32, 100, 256, 1024, 2047] {
        let mut buff = vec![0x0; 4]; // Random 4 bytes
        buff.extend_from_slice(&len.to_le_bytes());

        let random_string = random_string(len);

        // convert to UTF-16 bytes
        buff.extend(utf16_bytes(&random_string));

        let p = FakeProccess { buff };

        let read_string = p.read_string_with_limit(Address::I32(0), 2048);
        assert!(!read_string.is_err());
        let read_string = read_string.unwrap();
        assert_eq!(read_string, random_string);
    }
}

#[test]
fn test_string_from_ptr_simple() {
    let string_len: u32 = 64;
    let pointer_points_at: i32 = 4; // 4 bytes ahead

    let mut buff: Vec<u8> = Vec::new();
    buff.extend_from_slice(&pointer_points_at.to_le_bytes());

    assert_eq!(buff.len(), 4);

    buff.extend_from_slice(&[0x0, 0x0, 0x0, 0x0]); // Random 4 bytes
    buff.extend_from_slice(&string_len.to_le_bytes()); // 4B string length

    assert_eq!(buff.len(), 12);

    let random_string = random_string(string_len);

    // convert to UTF-16 bytes
    buff.extend(utf16_bytes(&random_string));

    let p = FakeProccess { buff };

    let read_string = p.read_string_from_ptr(Address::I32(0)).unwrap();
    assert_eq!(read_string, random_string);
}

#[test]
fn test_string_from_ptr_randomized() {
    let mut rng = thread_rng();

    for _ in 0..=1337 {
        let string_len: u32 = rng.gen_range(1..200);
        let pointer_points_at: i32 = rng.gen_range(5..1000); // Starts at five to account for the sizeof(pointer)

        let mut buff = Vec::with_capacity(pointer_points_at as usize);

        buff.extend_from_slice(&pointer_points_at.to_le_bytes());
        assert_eq!(buff.len(), 4);

        let to_fill = pointer_points_at - 4;
        buff.extend_from_slice(&vec![0u8; to_fill as usize]);

        assert_eq!(buff.len(), pointer_points_at as usize);

        buff.extend_from_slice(&[0x0, 0x0, 0x0, 0x0]); // Random 4 bytes
        buff.extend_from_slice(&string_len.to_le_bytes()); // 4B string length

        let random_string = random_string(string_len);

        // convert to UTF-16 bytes
        buff.extend(utf16_bytes(&random_string));

        // Checking if buffer is pointer_points_at + 4B obj header + 4B length + len(UTF16 string itself)
        assert_eq!(
            buff.len(),
            (pointer_points_at + 4 + 4 + (string_len as i32 * 2)) as usize
        );

        let p = FakeProccess { buff };

        let read_string = p.read_string_from_ptr(Address::I32(0)).unwrap();
        assert_eq!(read_string, random_string);
    }
}

fn array_buffer(length: i32, item_bytes: Vec<u8>) -> Vec<u8> {
    // | 00 00 00 00 | 08 00 00 00 | 00 00 00 00 | length | items ... |
    //   not looked at  data pointer  not looked at
    let mut synthetic_buff = Vec::new();
    let items_start_idx: i32 = 8;
    synthetic_buff.extend([0u8; 4]);
    synthetic_buff.extend(items_start_idx.to_le_bytes());
    synthetic_buff.extend([0u8; 4]);
    synthetic_buff.extend(length.to_le_bytes());
    synthetic_buff.extend(item_bytes);
    synthetic_buff
}

#[test]
fn test_i8() {
    let mut rng = thread_rng();
    let num: i8 = rng.gen();

    let buff: Vec<u8> = num.to_le_bytes().to_vec();
    let p = FakeProccess { buff };

    let tmp = p.read_i8(Address::I32(0)).unwrap();
    assert_eq!(tmp, num);
}

#[test]
fn test_i8_array() {
    let mut rng = thread_rng();
    let length: i32 = rng.gen_range(0..1024);
    let items: Vec<i8> = (0..length).map(|_| rng.gen::<i8>()).collect();
    let item_bytes: Vec<u8> = items.iter().flat_map(|item| item.to_le_bytes()).collect();

    let p = FakeProccess { buff: array_buffer(length, item_bytes) };

    let mut fake_output_buff = Vec::new();
    p.read_i8_array(Address::I32(0), &mut fake_output_buff).unwrap();

    assert_eq!(fake_output_buff.len(), length as usize);
    assert_eq!(fake_output_buff, items);
}

#[test]
fn test_i16() {
    let mut rng = thread_rng();
    let num: i16 = rng.gen();

    let buff: Vec<u8> = num.to_le_bytes().to_vec();
    let p = FakeProccess { buff };

    let tmp = p.read_i16(Address::I32(0)).unwrap();
    assert_eq!(tmp, num);
}

#[test]
fn test_i16_array() {
    let mut rng = thread_rng();
    let length: i32 = rng.gen_range(0..1024);
    let items: Vec<i16> = (0..length).map(|_| rng.gen::<i16>()).collect();
    let item_bytes: Vec<u8> = items.iter().flat_map(|item| item.to_le_bytes()).collect();

    let p = FakeProccess { buff: array_buffer(length, item_bytes) };

    let mut fake_output_buff = Vec::new();
    p.read_i16_array(Address::I32(0), &mut fake_output_buff).unwrap();

    assert_eq!(fake_output_buff.len(), length as usize);
    assert_eq!(fake_output_buff, items);
}

#[test]
fn test_i32() {
    let mut rng = thread_rng();
    let num: i32 = rng.gen();

    let buff: Vec<u8> = num.to_le_bytes().to_vec();
    let p = FakeProccess { buff };

    let tmp = p.read_i32(Address::I32(0)).unwrap();
    assert_eq!(tmp, num);
}

#[test]
fn test_i32_array() {
    let mut rng = thread_rng();
    let length: i32 = rng.gen_range(0..1024);
    let items: Vec<i32> = (0..length).map(|_| rng.gen::<i32>()).collect();
    let item_bytes: Vec<u8> = items.iter().flat_map(|item| item.to_le_bytes()).collect();

    let p = FakeProccess { buff: array_buffer(length, item_bytes) };

    let mut fake_output_buff = Vec::new();
    p.read_i32_array(Address::I32(0), &mut fake_output_buff).unwrap();

    assert_eq!(fake_output_buff.len(), length as usize);
    assert_eq!(fake_output_buff, items);
}

#[test]
fn test_i64() {
    let mut rng = thread_rng();
    let num: i64 = rng.gen();

    let buff: Vec<u8> = num.to_le_bytes().to_vec();
    let p = FakeProccess { buff };

    let tmp = p.read_i64(Address::I32(0)).unwrap();
    assert_eq!(tmp, num);
}

#[test]
fn test_i64_array() {
    let mut rng = thread_rng();
    let length: i32 = rng.gen_range(0..1024);
    let items: Vec<i64> = (0..length).map(|_| rng.gen::<i64>()).collect();
    let item_bytes: Vec<u8> = items.iter().flat_map(|item| item.to_le_bytes()).collect();

    let p = FakeProccess { buff: array_buffer(length, item_bytes) };

    let mut fake_output_buff = Vec::new();
    p.read_i64_array(Address::I32(0), &mut fake_output_buff).unwrap();

    assert_eq!(fake_output_buff.len(), length as usize);
    assert_eq!(fake_output_buff, items);
}

#[test]
fn test_i128() {
    let mut rng = thread_rng();
    let num: i128 = rng.gen();

    let buff: Vec<u8> = num.to_le_bytes().to_vec();
    let p = FakeProccess { buff };

    let tmp = p.read_i128(Address::I32(0)).unwrap();
    assert_eq!(tmp, num);
}

#[test]
fn test_i128_array() {
    let mut rng = thread_rng();
    let length: i32 = rng.gen_range(0..1024);
    let items: Vec<i128> = (0..length).map(|_| rng.gen::<i128>()).collect();
    let item_bytes: Vec<u8> = items.iter().flat_map(|item| item.to_le_bytes()).collect();

    let p = FakeProccess { buff: array_buffer(length, item_bytes) };

    let mut fake_output_buff = Vec::new();
    p.read_i128_array(Address::I32(0), &mut fake_output_buff).unwrap();

    assert_eq!(fake_output_buff.len(), length as usize);
    assert_eq!(fake_output_buff, items);
}

#[test]
fn test_u8() {
    let mut rng = thread_rng();
    let num: u8 = rng.gen();

    let buff: Vec<u8> = num.to_le_bytes().to_vec();
    let p = FakeProccess { buff };

    let tmp = p.read_u8(Address::I32(0)).unwrap();
    assert_eq!(tmp, num);
}

#[test]
fn test_u8_array() {
    let mut rng = thread_rng();
    let length: i32 = rng.gen_range(0..1024);
    let items: Vec<u8> = (0..length).map(|_| rng.gen::<u8>()).collect();
    let item_bytes: Vec<u8> = items.iter().flat_map(|item| item.to_le_bytes()).collect();

    let p = FakeProccess { buff: array_buffer(length, item_bytes) };

    let mut fake_output_buff = Vec::new();
    p.read_u8_array(Address::I32(0), &mut fake_output_buff).unwrap();

    assert_eq!(fake_output_buff.len(), length as usize);
    assert_eq!(fake_output_buff, items);
}

#[test]
fn test_u16() {
    let mut rng = thread_rng();
    let num: u16 = rng.gen();

    let buff: Vec<u8> = num.to_le_bytes().to_vec();
    let p = FakeProccess { buff };

    let tmp = p.read_u16(Address::I32(0)).unwrap();
    assert_eq!(tmp, num);
}

#[test]
fn test_u16_array() {
    let mut rng = thread_rng();
    let length: i32 = rng.gen_range(0..1024);
    let items: Vec<u16> = (0..length).map(|_| rng.gen::<u16>()).collect();
    let item_bytes: Vec<u8> = items.iter().flat_map(|item| item.to_le_bytes()).collect();

    let p = FakeProccess { buff: array_buffer(length, item_bytes) };

    let mut fake_output_buff = Vec::new();
    p.read_u16_array(Address::I32(0), &mut fake_output_buff).unwrap();

    assert_eq!(fake_output_buff.len(), length as usize);
    assert_eq!(fake_output_buff, items);
}

#[test]
fn test_u32() {
    let mut rng = thread_rng();
    let num: u32 = rng.gen();

    let buff: Vec<u8> = num.to_le_bytes().to_vec();
    let p = FakeProccess { buff };

    let tmp = p.read_u32(Address::I32(0)).unwrap();
    assert_eq!(tmp, num);
}

#[test]
fn test_u32_array() {
    let mut rng = thread_rng();
    let length: i32 = rng.gen_range(0..1024);
    let items: Vec<u32> = (0..length).map(|_| rng.gen::<u32>()).collect();
    let item_bytes: Vec<u8> = items.iter().flat_map(|item| item.to_le_bytes()).collect();

    let p = FakeProccess { buff: array_buffer(length, item_bytes) };

    let mut fake_output_buff = Vec::new();
    p.read_u32_array(Address::I32(0), &mut fake_output_buff).unwrap();

    assert_eq!(fake_output_buff.len(), length as usize);
    assert_eq!(fake_output_buff, items);
}

#[test]
fn test_u64() {
    let mut rng = thread_rng();
    let num: u64 = rng.gen();

    let buff: Vec<u8> = num.to_le_bytes().to_vec();
    let p = FakeProccess { buff };

    let tmp = p.read_u64(Address::I32(0)).unwrap();
    assert_eq!(tmp, num);
}

#[test]
fn test_u64_array() {
    let mut rng = thread_rng();
    let length: i32 = rng.gen_range(0..1024);
    let items: Vec<u64> = (0..length).map(|_| rng.gen::<u64>()).collect();
    let item_bytes: Vec<u8> = items.iter().flat_map(|item| item.to_le_bytes()).collect();

    let p = FakeProccess { buff: array_buffer(length, item_bytes) };

    let mut fake_output_buff = Vec::new();
    p.read_u64_array(Address::I32(0), &mut fake_output_buff).unwrap();

    assert_eq!(fake_output_buff.len(), length as usize);
    assert_eq!(fake_output_buff, items);
}

#[test]
fn test_u128() {
    let mut rng = thread_rng();
    let num: u128 = rng.gen();

    let buff: Vec<u8> = num.to_le_bytes().to_vec();
    let p = FakeProccess { buff };

    let tmp = p.read_u128(Address::I32(0)).unwrap();
    assert_eq!(tmp, num);
}

#[test]
fn test_u128_array() {
    let mut rng = thread_rng();
    let length: i32 = rng.gen_range(0..1024);
    let items: Vec<u128> = (0..length).map(|_| rng.gen::<u128>()).collect();
    let item_bytes: Vec<u8> = items.iter().flat_map(|item| item.to_le_bytes()).collect();

    let p = FakeProccess { buff: array_buffer(length, item_bytes) };

    let mut fake_output_buff = Vec::new();
    p.read_u128_array(Address::I32(0), &mut fake_output_buff).unwrap();

    assert_eq!(fake_output_buff.len(), length as usize);
    assert_eq!(fake_output_buff, items);
}

#[test]
fn test_f32() {
    let mut rng = thread_rng();
    let num: f32 = rng.gen();

    let buff: Vec<u8> = num.to_le_bytes().to_vec();
    let p = FakeProccess { buff };

    let tmp = f32::from_bits(p.read_u32(Address::I32(0)).unwrap());
    assert_eq!(tmp, num);
}

#[test]
fn test_f32_array() {
    let mut rng = thread_rng();
    let length: i32 = rng.gen_range(0..1024);
    let items: Vec<f32> = (0..length).map(|_| rng.gen::<f32>()).collect();
    let item_bytes: Vec<u8> = items.iter().flat_map(|item| item.to_le_bytes()).collect();

    let p = FakeProccess { buff: array_buffer(length, item_bytes) };

    let mut bits = Vec::new();
    p.read_u32_array(Address::I32(0), &mut bits).unwrap();
    let fake_output_buff: Vec<f32> = bits.iter().map(|b| f32::from_bits(*b)).collect();

    assert_eq!(fake_output_buff.len(), length as usize);
    assert_eq!(fake_output_buff, items);
}

#[test]
fn test_f64() {
    let mut rng = thread_rng();
    let num: f64 = rng.gen();

    let buff: Vec<u8> = num.to_le_bytes().to_vec();
    let p = FakeProccess { buff };

    let tmp = f64::from_bits(p.read_u64(Address::I32(0)).unwrap());
    assert_eq!(tmp, num);
}

#[test]
fn test_f64_array() {
    let mut rng = thread_rng();
    let length: i32 = rng.gen_range(0..1024);
    let items: Vec<f64> = (0..length).map(|_| rng.gen::<f64>()).collect();
    let item_bytes: Vec<u8> = items.iter().flat_map(|item| item.to_le_bytes()).collect();

    let p = FakeProccess { buff: array_buffer(length, item_bytes) };

    let mut bits = Vec::new();
    p.read_u64_array(Address::I32(0), &mut bits).unwrap();
    let fake_output_buff: Vec<f64> = bits.iter().map(|b| f64::from_bits(*b)).collect();

    assert_eq!(fake_output_buff.len(), length as usize);
    assert_eq!(fake_output_buff, items);
}

#[test]
fn test_exact_little_endian_values() {
    let p = FakeProccess {
        buff: vec![0x78, 0x56, 0x34, 0x12, 0xFF, 0xFF, 0xFF, 0xFF, 0x00, 0x80],
    };
    assert_eq!(p.read_u8(Address::Native(0)).unwrap(), 0x78);
    assert_eq!(p.read_u16(Address::Native(0)).unwrap(), 0x5678);
    assert_eq!(p.read_u32(Address::Native(0)).unwrap(), 0x1234_5678);
    assert_eq!(p.read_u64(Address::I64(0)).unwrap(), 0xFFFF_FFFF_1234_5678);
    assert_eq!(p.read_i32(Address::Native(4)).unwrap(), -1);
    assert_eq!(p.read_i8(Address::Native(4)).unwrap(), -1);
    assert_eq!(p.read_i16(Address::Native(8)).unwrap(), i16::MIN);
    assert_eq!(p.read_u16(Address::Native(8)).unwrap(), 0x8000);
}

#[test]
fn test_uleb_multi_byte() {
    // 624485 = 0b100110_0001110_1100101, least significant group first
    let p = FakeProccess { buff: vec![0xE5, 0x8E, 0x26, 0xFF] };
    assert_eq!(p.read_uleb128(Address::I32(0)).unwrap(), 624485);

    let p = FakeProccess { buff: vec![0x80, 0x01] };
    assert_eq!(p.read_uleb128(Address::I32(0)).unwrap(), 128);

    let p = FakeProccess { buff: vec![0x7F] };
    assert_eq!(p.read_uleb128(Address::I32(0)).unwrap(), 127);
}

#[test]
fn test_uleb_full_width_and_cut() {
    // u64::MAX takes ten bytes: nine of 0xFF and a last one of 0x01
    let mut buff = vec![0xFF; 9];
    buff.push(0x01);
    let p = FakeProccess { buff };
    assert_eq!(p.read_uleb128(Address::I32(0)).unwrap(), u64::MAX);

    // bits above the 64th are cut off
    let mut buff = vec![0x80; 9];
    buff.push(0x7E);
    let p = FakeProccess { buff };
    assert_eq!(p.read_uleb128(Address::I32(0)).unwrap(), 0);
}

#[test]
fn test_uleb_longer_than_ten_bytes_is_refused() {
    let p = FakeProccess { buff: vec![0x80; 16] };
    assert!(matches!(
        p.read_uleb128(Address::I32(0)),
        Err(ProcessError::ConvertionError)
    ));
}

#[test]
fn test_negative_address_is_a_conversion_error() {
    let p = FakeProccess { buff: vec![0; 32] };
    assert!(matches!(
        p.read_u32(Address::I32(-1)),
        Err(ProcessError::AddressConvertError)
    ));
    assert!(matches!(
        p.read_string(Address::I64(-8)),
        Err(ProcessError::AddressConvertError)
    ));
    assert!(matches!(
        p.read_uleb128(Address::I32(i32::MIN)),
        Err(ProcessError::AddressConvertError)
    ));
    let mut out: Vec<u8> = vec![1, 2, 3];
    assert!(matches!(
        p.read_u8_array(Address::I64(-1), &mut out),
        Err(ProcessError::AddressConvertError)
    ));
    assert_eq!(out, vec![1, 2, 3]);
}

#[test]
fn test_address_past_the_address_space_is_a_conversion_error() {
    let p = FakeProccess { buff: vec![0; 32] };
    assert!(matches!(
        p.read_string(Address::Native(usize::MAX - 2)),
        Err(ProcessError::AddressConvertError)
    ));
}

#[test]
fn test_array_with_negative_count_is_a_conversion_error() {
    let p = FakeProccess { buff: array_buffer(-1, Vec::new()) };
    let mut out: Vec<u32> = vec![7];
    assert!(matches!(
        p.read_u32_array(Address::I32(0), &mut out),
        Err(ProcessError::ConvertionError)
    ));
    assert_eq!(out, vec![7]);
}

#[test]
fn test_array_replaces_the_buffer() {
    let p = FakeProccess {
        buff: array_buffer(2, vec![1, 0, 2, 0]),
    };
    let mut out: Vec<u16> = vec![9, 9, 9, 9, 9];
    p.read_u16_array(Address::I32(0), &mut out).unwrap();
    assert_eq!(out, vec![1, 2]);
}

#[test]
fn test_string_decodes_utf16_leniently() {
    // "a", a surrogate pair for U+1D11E, a lone high surrogate, "z"
    let units: [u16; 5] = [0x0061, 0xD834, 0xDD1E, 0xD800, 0x007A];
    let mut buff = vec![0x0; 4];
    buff.extend_from_slice(&(units.len() as u32).to_le_bytes());
    for unit in units {
        buff.extend_from_slice(&unit.to_le_bytes());
    }
    let p = FakeProccess { buff };
    assert_eq!(
        p.read_string(Address::I32(0)).unwrap(),
        "a\u{1D11E}\u{FFFD}z"
    );
}

#[test]
fn test_string_limit_is_inclusive() {
    let text = "abcdefgh";
    let mut buff = vec![0x0; 4];
    buff.extend_from_slice(&8u32.to_le_bytes());
    buff.extend(utf16_bytes(text));
    let p = FakeProccess { buff };
    assert_eq!(p.read_string_with_limit(Address::I32(0), 8).unwrap(), text);
    assert!(matches!(
        p.read_string_with_limit(Address::I32(0), 7),
        Err(ProcessError::StringTooLarge)
    ));
}
