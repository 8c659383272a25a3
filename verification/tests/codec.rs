use cubesat_protocols::codec::{are_tags_bounded, decode, encode, CodecError, MAX_TAGS};
use cubesat_protocols::message::Message;
use cubesat_protocols::parsers::parse_message;
use cubesat_protocols::value::DataItem;

fn text(s: &str) -> DataItem {
    DataItem::Text(s.to_string())
}

#[test]
fn decode_reads_an_array_of_scalars() {
    let bytes =
        serde_cbor::ser::to_vec_packed(&(100, "import", "/import/path".to_string())).unwrap();
    assert_eq!(
        decode(&bytes),
        Ok(DataItem::Array(vec![
            DataItem::U64(100),
            text("import"),
            text("/import/path"),
        ]))
    );
}

#[test]
fn encode_writes_the_shortest_form() {
    assert_eq!(encode(&DataItem::U64(0)), Ok(vec![0x00]));
    assert_eq!(encode(&DataItem::U64(23)), Ok(vec![0x17]));
    assert_eq!(encode(&DataItem::U64(24)), Ok(vec![0x18, 24]));
    assert_eq!(encode(&DataItem::U64(256)), Ok(vec![0x19, 1, 0]));
    assert_eq!(encode(&DataItem::U64(65536)), Ok(vec![0x1a, 0, 1, 0, 0]));
    assert_eq!(
        encode(&DataItem::U64(1 << 32)),
        Ok(vec![0x1b, 0, 0, 0, 1, 0, 0, 0, 0])
    );
    assert_eq!(encode(&DataItem::I64(-1)), Ok(vec![0x20]));
    assert_eq!(encode(&DataItem::Bool(false)), Ok(vec![0xf4]));
    assert_eq!(encode(&DataItem::Bool(true)), Ok(vec![0xf5]));
    assert_eq!(encode(&DataItem::Null), Ok(vec![0xf6]));
    assert_eq!(encode(&DataItem::Bytes(vec![1, 2])), Ok(vec![0x42, 1, 2]));
    assert_eq!(encode(&text("ab")), Ok(vec![0x62, b'a', b'b']));
    assert_eq!(
        encode(&DataItem::Array(vec![text("h"), DataItem::Bool(true)])),
        Ok(vec![0x82, 0x61, b'h', 0xf5])
    );
}

#[test]
fn encode_matches_the_tuple_encoding() {
    let bytes = serde_cbor::ser::to_vec_packed(&(
        100,
        "export",
        "abcdefg".to_string(),
        "/target/path".to_string(),
        Some(0o600),
    ))
    .unwrap();
    let message = Message::ReqReceive(
        100,
        "abcdefg".to_string(),
        "/target/path".to_string(),
        Some(0o600),
    );
    assert_eq!(encode(&message.to_item()), Ok(bytes));
}

#[test]
fn decode_inverts_encode() {
    let values = vec![
        DataItem::U64(0),
        DataItem::U64(u64::MAX),
        DataItem::I64(-1),
        DataItem::I64(i64::MIN),
        DataItem::Bytes(vec![]),
        DataItem::Bytes(vec![0, 255, 7]),
        text(""),
        text("h\u{e9}llo"),
        DataItem::Bool(true),
        DataItem::Bool(false),
        DataItem::Null,
        DataItem::Array(vec![]),
        DataItem::Array(vec![
            DataItem::U64(1),
            DataItem::Array(vec![text("x"), DataItem::Null]),
            DataItem::Bytes(vec![1; 300]),
        ]),
    ];
    for v in values {
        let bytes = encode(&v).unwrap();
        let back = decode(&bytes).unwrap();
        assert_eq!(back, v);
        assert_eq!(encode(&back), Ok(bytes));
    }
}

#[test]
fn decode_rejects_trailing_bytes() {
    let mut bytes = encode(&DataItem::Array(vec![text("h")])).unwrap();
    bytes.push(0x00);
    assert_eq!(decode(&bytes), Err(CodecError::Malformed));
}

#[test]
fn decode_rejects_cut_and_empty_input() {
    let bytes = encode(&DataItem::Array(vec![text("hash"), DataItem::U64(1000)])).unwrap();
    assert_eq!(decode(&bytes[..bytes.len() - 1]), Err(CodecError::Malformed));
    assert_eq!(decode(&[]), Err(CodecError::Malformed));
    assert_eq!(decode(&[0x1c]), Err(CodecError::Malformed));
}

#[test]
fn decode_reads_maps_and_marks_floats() {
    // {1: "a", "b": 1.5}
    let bytes = vec![
        0xa2, 0x01, 0x61, b'a', 0x61, b'b', 0xfb, 0x3f, 0xf8, 0, 0, 0, 0, 0, 0,
    ];
    assert_eq!(
        decode(&bytes),
        Ok(DataItem::Object(vec![
            (DataItem::I64(1), text("a")),
            (text("b"), DataItem::Float),
        ]))
    );
}

#[test]
fn maps_come_out_in_key_order() {
    // {"b": 1, true: 2, -1: 3, h'02': 4, null: 5, "aa": 6, 7: 8, h'0100': 9, false: 0}
    let bytes = vec![
        0xa9, 0x61, b'b', 0x01, 0xf5, 0x02, 0x20, 0x03, 0x41, 0x02, 0x04, 0xf6, 0x05, 0x62, b'a',
        b'a', 0x06, 0x07, 0x08, 0x42, 0x01, 0x00, 0x09, 0xf4, 0x00,
    ];
    let tree = decode(&bytes).unwrap();
    assert_eq!(
        tree,
        DataItem::Object(vec![
            (DataItem::I64(-1), DataItem::U64(3)),
            (DataItem::I64(7), DataItem::U64(8)),
            (DataItem::Bytes(vec![1, 0]), DataItem::U64(9)),
            (DataItem::Bytes(vec![2]), DataItem::U64(4)),
            (text("aa"), DataItem::U64(6)),
            (text("b"), DataItem::U64(1)),
            (DataItem::Bool(false), DataItem::U64(0)),
            (DataItem::Bool(true), DataItem::U64(2)),
            (DataItem::Null, DataItem::U64(5)),
        ])
    );
    assert!(tree.is_canonical());
    let again = encode(&tree).unwrap();
    assert_eq!(decode(&again), Ok(tree));
}

#[test]
fn maps_in_key_order_are_encoded() {
    let map = DataItem::Object(vec![
        (DataItem::I64(1), text("a")),
        (text("k"), DataItem::Array(vec![DataItem::Object(vec![])])),
    ]);
    assert!(map.is_canonical());
    let bytes = encode(&map).unwrap();
    assert_eq!(bytes, vec![0xa2, 0x01, 0x61, b'a', 0x61, b'k', 0x81, 0xa0]);
    assert_eq!(decode(&bytes), Ok(map));
}

#[test]
fn maps_out_of_order_are_turned_down() {
    let cases = vec![
        // out of order within a kind
        DataItem::Object(vec![(DataItem::I64(2), text("a")), (DataItem::I64(1), text("b"))]),
        DataItem::Object(vec![(text("b"), text("a")), (text("a"), text("b"))]),
        DataItem::Object(vec![(text("ab"), text("a")), (text("a"), text("b"))]),
        DataItem::Object(vec![
            (DataItem::Bytes(vec![1, 1]), text("a")),
            (DataItem::Bytes(vec![1, 0, 9]), text("b")),
        ]),
        DataItem::Object(vec![
            (DataItem::Bool(true), text("a")),
            (DataItem::Bool(false), text("b")),
        ]),
        // out of order between kinds
        DataItem::Object(vec![(text("a"), text("a")), (DataItem::I64(1), text("b"))]),
        DataItem::Object(vec![(DataItem::Null, text("a")), (DataItem::Bool(true), text("b"))]),
        // a key twice
        DataItem::Object(vec![(DataItem::I64(1), text("a")), (DataItem::I64(1), text("b"))]),
        DataItem::Object(vec![(DataItem::Null, text("a")), (DataItem::Null, text("b"))]),
        // no keys
        DataItem::Object(vec![(DataItem::U64(1), text("a"))]),
        DataItem::Object(vec![(DataItem::Float, text("a"))]),
        DataItem::Object(vec![(DataItem::Array(vec![]), text("a"))]),
        DataItem::Object(vec![(DataItem::Object(vec![]), text("a"))]),
        // deeper down
        DataItem::Array(vec![
            DataItem::U64(1),
            DataItem::Array(vec![DataItem::Object(vec![(DataItem::U64(1), text("a"))])]),
        ]),
        DataItem::Object(vec![(
            DataItem::I64(1),
            DataItem::Object(vec![(DataItem::U64(1), text("a"))]),
        )]),
    ];
    for tree in cases {
        assert!(!tree.is_canonical());
        assert_eq!(encode(&tree), Err(CodecError::Unsupported));
    }
}

#[test]
fn keys_ascend_by_kind_and_value() {
    let ascending = vec![
        DataItem::I64(i64::MIN),
        DataItem::I64(-1),
        DataItem::I64(0),
        DataItem::I64(i64::MAX),
        DataItem::Bytes(vec![]),
        DataItem::Bytes(vec![0]),
        DataItem::Bytes(vec![0, 0]),
        DataItem::Bytes(vec![0, 1]),
        DataItem::Bytes(vec![1]),
        DataItem::Bytes(vec![255]),
        text(""),
        text("a"),
        text("aa"),
        text("ab"),
        text("b"),
        text("z\u{e9}"),
        text("\u{e9}"),
        text("\u{10000}"),
        DataItem::Bool(false),
        DataItem::Bool(true),
        DataItem::Null,
    ];
    for i in 0..ascending.len() {
        for j in 0..ascending.len() {
            let pair = DataItem::Object(vec![
                (ascending[i].clone(), DataItem::Null),
                (ascending[j].clone(), DataItem::Null),
            ]);
            assert_eq!(pair.is_canonical(), i < j);
            match encode(&pair) {
                Ok(bytes) => {
                    assert!(i < j);
                    assert_eq!(decode(&bytes), Ok(pair));
                }
                Err(e) => {
                    assert!(i >= j);
                    assert_eq!(e, CodecError::Unsupported);
                }
            }
        }
    }
}

#[test]
fn a_message_survives_the_wire() {
    let message = Message::ReceiveChunk("abcd".to_string(), 10, vec![0, 0, 1, 1, 2, 2]);
    let bytes = encode(&message.to_item()).unwrap();
    assert_eq!(parse_message(decode(&bytes).unwrap()), Ok(message));
}

/// A small generator of numbers that gives the same run every time.
struct Numbers(u64);

impl Numbers {
    fn next(&mut self) -> u64 {
        self.0 = self.0.wrapping_mul(6364136223846793005).wrapping_add(1442695040888963407);
        self.0 >> 11
    }

    fn below(&mut self, n: u64) -> u64 {
        self.next() % n
    }

    fn number(&mut self) -> u64 {
        let bits = self.below(65);
        if bits == 0 {
            0
        } else {
            self.next().wrapping_mul(0x9e37_79b9_7f4a_7c15) >> (64 - bits)
        }
    }

    fn bytes(&mut self) -> Vec<u8> {
        let len = match self.below(4) {
            0 => 0,
            1 => self.below(24),
            2 => self.below(300),
            _ => 1,
        };
        (0..len).map(|_| self.below(256) as u8).collect()
    }

    fn string(&mut self) -> String {
        let letters = ['a', 'z', '0', '/', ' ', '\u{e9}', '\u{4e2d}', '\u{1f680}', '\0', '"'];
        let len = self.below(30);
        (0..len).map(|_| letters[self.below(letters.len() as u64) as usize]).collect()
    }

    fn tree(&mut self, depth: u32) -> DataItem {
        match self.below(if depth == 0 { 6 } else { 7 }) {
            0 => DataItem::U64(self.number()),
            1 => DataItem::I64(-1 - (self.number() >> 1) as i64),
            2 => DataItem::Bytes(self.bytes()),
            3 => DataItem::Text(self.string()),
            4 => DataItem::Bool(self.below(2) == 1),
            5 => DataItem::Null,
            _ => {
                let len = self.below(5);
                DataItem::Array((0..len).map(|_| self.tree(depth - 1)).collect())
            }
        }
    }
}

#[test]
fn decode_inverts_encode_on_many_trees() {
    let mut numbers = Numbers(2024);
    for _ in 0..2000 {
        let tree = numbers.tree(3);
        let bytes = encode(&tree).unwrap();
        assert_eq!(encode(&tree.clone()), Ok(bytes.clone()));
        let back = decode(&bytes).unwrap();
        assert_eq!(back, tree);
        assert_eq!(encode(&back), Ok(bytes));
    }
}

#[test]
fn integers_take_the_shortest_form() {
    let lengths = [
        (0u64, 1usize),
        (23, 1),
        (24, 2),
        (255, 2),
        (256, 3),
        (65535, 3),
        (65536, 5),
        (u32::MAX as u64, 5),
        (u32::MAX as u64 + 1, 9),
        (u64::MAX, 9),
    ];
    for (n, len) in lengths {
        let bytes = encode(&DataItem::U64(n)).unwrap();
        assert_eq!(bytes.len(), len);
        assert_eq!(decode(&bytes), Ok(DataItem::U64(n)));
    }
    // what is not in the shortest form is still read
    assert_eq!(decode(&[0x1b, 0, 0, 0, 0, 0, 0, 0, 5]), Ok(DataItem::U64(5)));
    assert_eq!(decode(&[0x18, 5]), Ok(DataItem::U64(5)));
}

#[test]
fn floats_are_marked_and_not_written() {
    // 1.5 in half, single and double precision; a NaN; an array that holds a float
    let inputs: Vec<Vec<u8>> = vec![
        vec![0xf9, 0x3e, 0x00],
        vec![0xfa, 0x3f, 0xc0, 0x00, 0x00],
        vec![0xfb, 0x3f, 0xf8, 0, 0, 0, 0, 0, 0],
        vec![0xf9, 0x7e, 0x00],
    ];
    for bytes in inputs {
        assert_eq!(decode(&bytes), Ok(DataItem::Float));
    }
    assert_eq!(
        decode(&[0x82, 0x01, 0xf9, 0x3e, 0x00]),
        Ok(DataItem::Array(vec![DataItem::U64(1), DataItem::Float]))
    );
    assert!(!DataItem::Float.is_float_free());
    assert!(DataItem::Float.is_canonical());
    assert_eq!(encode(&DataItem::Float), Err(CodecError::Unsupported));
    let nested = DataItem::Array(vec![DataItem::Array(vec![DataItem::Float])]);
    assert!(!nested.is_float_free());
    assert_eq!(encode(&nested), Err(CodecError::Unsupported));
    let in_map = DataItem::Object(vec![(DataItem::I64(1), DataItem::Float)]);
    assert!(in_map.is_canonical());
    assert!(!in_map.is_float_free());
    assert_eq!(encode(&in_map), Err(CodecError::Unsupported));
    assert!(DataItem::Array(vec![DataItem::U64(1), DataItem::Null]).is_float_free());
    assert!(DataItem::Object(vec![(DataItem::I64(1), DataItem::Null)]).is_float_free());
}

#[test]
fn a_value_may_wear_a_few_tags() {
    assert_eq!(MAX_TAGS, 4);
    // 1 under tags 0, 1(0), 256, 65536
    let bytes = vec![0xc0, 0xd8, 0x00, 0xd9, 0x01, 0x00, 0xda, 0x00, 0x01, 0x00, 0x00, 0x01];
    assert!(are_tags_bounded(&bytes));
    assert_eq!(decode(&bytes), Ok(DataItem::U64(1)));
    // tags inside an array count for each item anew
    let mut bytes = vec![0x83];
    for _ in 0..3 {
        bytes.extend_from_slice(&[0xc1, 0xc1, 0xc1, 0xc1, 0x05]);
    }
    assert!(are_tags_bounded(&bytes));
    assert_eq!(
        decode(&bytes),
        Ok(DataItem::Array(vec![DataItem::U64(5), DataItem::U64(5), DataItem::U64(5)]))
    );
}

#[test]
fn a_run_of_tags_is_turned_down() {
    let bytes = vec![0xc0, 0xc0, 0xc0, 0xc0, 0xc0, 0x01];
    assert!(!are_tags_bounded(&bytes));
    assert_eq!(decode(&bytes), Err(CodecError::Malformed));
    let bytes = vec![0xdb, 0, 0, 0, 0, 0, 0, 0, 1, 0xd8, 0x07, 0xc2, 0xc3, 0xc4, 0x01];
    assert!(!are_tags_bounded(&bytes));
    assert_eq!(decode(&bytes), Err(CodecError::Malformed));
    let bytes = vec![0x81, 0xc0, 0xc0, 0xc0, 0xc0, 0xc0, 0x01];
    assert_eq!(decode(&bytes), Err(CodecError::Malformed));
    // as long as a datagram can be, and nothing but tags
    let mut bytes = vec![0xc0; 1 << 20];
    assert!(!are_tags_bounded(&bytes));
    assert_eq!(decode(&bytes), Err(CodecError::Malformed));
    bytes.push(0x01);
    assert_eq!(decode(&bytes), Err(CodecError::Malformed));
    let bytes = vec![0xd8; 100_001];
    assert_eq!(decode(&bytes), Err(CodecError::Malformed));
}

#[test]
fn bytes_that_look_like_tags_may_fill_a_string() {
    for fill in [0xc0u8, 0xcc, 0xd7, 0xd8, 0xdb] {
        for len in [0usize, 1, 5, 23, 24, 255, 256, 4096, 70_000] {
            let tree = DataItem::Array(vec![
                DataItem::Text("h".to_string()),
                DataItem::U64(len as u64),
                DataItem::Bytes(vec![fill; len]),
            ]);
            let bytes = encode(&tree).unwrap();
            assert!(are_tags_bounded(&bytes));
            assert_eq!(decode(&bytes), Ok(tree));
        }
    }
    // a byte string in pieces, each piece full of such bytes
    let mut bytes = vec![0x5f];
    for _ in 0..3 {
        bytes.push(0x46);
        bytes.extend_from_slice(&[0xc0; 6]);
    }
    bytes.push(0xff);
    assert!(are_tags_bounded(&bytes));
    assert_eq!(decode(&bytes), Ok(DataItem::Bytes(vec![0xc0; 18])));
}

#[test]
fn the_walk_ends_where_the_bytes_are_cut_short() {
    // a string that says more than is there, a head without its argument: the decoder
    // is asked, and turns them down
    for bytes in [
        vec![0x58],
        vec![0x45, 0xc0, 0xc0],
        vec![0x5b, 0xff, 0xff, 0xff, 0xff, 0xff, 0xff, 0xff, 0xff, 0xc0],
        vec![0xc0, 0xc0, 0xd9, 0x00],
        vec![],
    ] {
        assert!(are_tags_bounded(&bytes));
        assert_eq!(decode(&bytes), Err(CodecError::Malformed));
    }
}

#[test]
fn arguments_that_look_like_tags_are_stepped_over() {
    let number = vec![0x1b, 0xc0, 0xc0, 0xc0, 0xc0, 0xc0, 0xc0, 0xc0, 0xc0];
    assert!(are_tags_bounded(&number));
    assert_eq!(decode(&number), Ok(DataItem::U64(0xc0c0_c0c0_c0c0_c0c0)));
    let negative = vec![0x3a, 0xd8, 0xd8, 0xd8, 0xd8];
    assert_eq!(decode(&negative), Ok(DataItem::I64(-1 - 0xd8d8_d8d8)));
    let float = vec![0xfb, 0xc0, 0xc0, 0xc0, 0xc0, 0xc0, 0xc0, 0xc0, 0xc0];
    assert_eq!(decode(&float), Ok(DataItem::Float));
    let tag_number = vec![0xdb, 0xc0, 0xc0, 0xc0, 0xc0, 0xc0, 0xc0, 0xc0, 0xc0, 0x07];
    assert_eq!(decode(&tag_number), Ok(DataItem::U64(7)));
    // a text of 0xc3 bytes with a two-byte length, then more items
    let mut bytes = vec![0x9f, 0x79, 0x00, 0xc0];
    for _ in 0..0x60 {
        bytes.extend_from_slice(&[0xc3, 0xa9]);
    }
    bytes.extend_from_slice(&[0xc0, 0xc0, 0xc0, 0xc0, 0x02, 0xff]);
    assert!(are_tags_bounded(&bytes));
    assert_eq!(
        decode(&bytes),
        Ok(DataItem::Array(vec![DataItem::Text("\u{e9}".repeat(0x60)), DataItem::U64(2)]))
    );
    // one tag more after the text is one too many
    let at = bytes.len() - 2;
    bytes.insert(at, 0xc0);
    assert!(!are_tags_bounded(&bytes));
    assert_eq!(decode(&bytes), Err(CodecError::Malformed));
}

#[test]
fn the_deepest_nesting_that_is_read() {
    // arrays as deep as the decoder goes, each under as many tags as may be
    let build = |levels: usize| {
        let mut bytes = Vec::new();
        for _ in 0..levels {
            bytes.extend_from_slice(&[0xc0, 0xc0, 0xc0, 0xc0, 0x81]);
        }
        bytes.extend_from_slice(&[0xc0, 0xc0, 0xc0, 0xc0, 0x01]);
        bytes
    };
    let bytes = build(126);
    assert!(are_tags_bounded(&bytes));
    let mut tree = decode(&bytes).unwrap();
    for _ in 0..126 {
        tree = match tree {
            DataItem::Array(mut items) => {
                assert_eq!(items.len(), 1);
                items.remove(0)
            }
            other => panic!("unexpected {:?}", other),
        };
    }
    assert_eq!(tree, DataItem::U64(1));
    let bytes = build(200);
    assert!(are_tags_bounded(&bytes));
    assert_eq!(decode(&bytes), Err(CodecError::Malformed));
}
