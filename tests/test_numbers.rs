use ohmers::decoder::{Decoder, DecoderError};
use ohmers::encoder::Encoder;
use ohmers::store::Store;

#[derive(PartialEq, Debug, Default)]
struct Numbers {
    id: usize,
    u8: u8,
    u16: u16,
    u32: u32,
    u64: u64,
    usize: usize,
    i8: i8,
    i16: i16,
    i32: i32,
    i64: i64,
    isize: isize,
}

impl Numbers {
    fn encode(&self) -> Encoder {
        let mut e = Encoder::new();
        e.emit_struct("Numbers").unwrap();
        e.emit_id(self.id);
        e.emit_u8("u8", self.u8);
        e.emit_u16("u16", self.u16);
        e.emit_u32("u32", self.u32);
        e.emit_u64("u64", self.u64);
        e.emit_usize("usize", self.usize);
        e.emit_i8("i8", self.i8);
        e.emit_i16("i16", self.i16);
        e.emit_i32("i32", self.i32);
        e.emit_i64("i64", self.i64);
        e.emit_isize("isize", self.isize);
        e
    }

    fn decode(d: &Decoder) -> Result<Numbers, DecoderError> {
        Ok(Numbers {
            id: d.read_usize("id")?,
            u8: d.read_u8("u8")?,
            u16: d.read_u16("u16")?,
            u32: d.read_u32("u32")?,
            u64: d.read_u64("u64")?,
            usize: d.read_usize("usize")?,
            i8: d.read_i8("i8")?,
            i16: d.read_i16("i16")?,
            i32: d.read_i32("i32")?,
            i64: d.read_i64("i64")?,
            isize: d.read_isize("isize")?,
        })
    }
}

fn round_trip(mut numbers: Numbers) {
    let mut store = Store::new("Numbers", vec![], vec![]);
    numbers.id = store.save(&numbers.encode()).unwrap();
    let numbers2 = Numbers::decode(&Decoder::new(store.load(numbers.id).unwrap())).unwrap();
    assert_eq!(numbers, numbers2);
}

#[test]
fn test_numbers_max() {
    round_trip(Numbers {
        id: 0,
        u8: u8::MAX,
        u16: u16::MAX,
        u32: u32::MAX,
        u64: u64::MAX,
        usize: usize::MAX,
        i8: i8::MAX,
        i16: i16::MAX,
        i32: i32::MAX,
        i64: i64::MAX,
        isize: isize::MAX,
    });
}

#[test]
fn test_numbers_min() {
    round_trip(Numbers {
        id: 0,
        u8: u8::MIN,
        u16: u16::MIN,
        u32: u32::MIN,
        u64: u64::MIN,
        usize: usize::MIN,
        i8: i8::MIN,
        i16: i16::MIN,
        i32: i32::MIN,
        i64: i64::MIN,
        isize: isize::MIN,
    });
}

#[test]
fn out_of_range_number_is_expected_error() {
    let d = Decoder::new(vec![
        ("small".to_string(), "256".to_string()),
        ("word".to_string(), "12a".to_string()),
        ("neg".to_string(), "-129".to_string()),
        ("plus".to_string(), "+42".to_string()),
    ]);
    match d.read_u8("small") {
        Err(DecoderError::ExpectedError(k, a)) => {
            assert_eq!(k, "Number");
            assert_eq!(a, "256");
        }
        other => panic!("unexpected {:?}", other),
    }
    match d.read_u64("word") {
        Err(DecoderError::ExpectedError(k, a)) => {
            assert_eq!(k, "Number");
            assert_eq!(a, "12a");
        }
        other => panic!("unexpected {:?}", other),
    }
    assert!(d.read_i8("neg").is_err());
    assert_eq!(d.read_i16("neg").unwrap(), -129);
    assert_eq!(d.read_u8("plus").unwrap(), 42);
    match d.read_u32("missing") {
        Err(DecoderError::ExpectedError(k, a)) => {
            assert_eq!(k, "Number");
            assert_eq!(a, "None");
        }
        other => panic!("unexpected {:?}", other),
    }
}
