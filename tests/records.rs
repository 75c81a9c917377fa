use ggml_rs::{
    ByteStream, Context, DataType, DecodeFailure, Dimension, Field, FieldLayout, ModelIO,
    ModelIOError, Record, RecordLayout, ScalarKind, TensorParams,
};

const MEMORY_SIZE: usize = 1024 * 512;

fn layout(fields: &[(ScalarKind, usize)]) -> RecordLayout {
    RecordLayout {
        fields: fields
            .iter()
            .map(|&(kind, count)| FieldLayout { kind, count })
            .collect(),
    }
}

fn model(fields: &[(ScalarKind, usize)], datatype: DataType, dim: Dimension) -> ModelIO {
    ModelIO::new(layout(fields), TensorParams { datatype, dim })
}

fn counting_bytes(n: usize) -> Vec<u8> {
    (0..n).map(|i| i as u8).collect()
}

#[test]
fn test_reader_1d() {
    let mut ctx = Context::init_managed(vec![0u8; MEMORY_SIZE]);
    let io = model(&[(ScalarKind::I8, 1)], DataType::I8, Dimension::D1);
    let mut reader = ByteStream::new(counting_bytes(16));
    for i in 0..16 {
        assert_eq!(reader.position(), i);
        let read_result = io.read_to_tensor(&mut ctx, &mut reader, vec![None]);
        assert!(read_result.is_ok());
        let tensor = read_result.unwrap();
        assert_eq!(tensor.nbytes(&ctx), 1);
        assert_eq!(tensor.read_data(&ctx), vec![i as u8]);
    }
    assert!(io.read_to_tensor(&mut ctx, &mut reader, vec![None]).is_err());
}

#[test]
fn test_reader_1d_2() {
    let mut ctx = Context::init_managed(vec![0u8; MEMORY_SIZE]);
    let io = model(&[(ScalarKind::I32, 1)], DataType::I32, Dimension::D1);
    let mut reader = ByteStream::new(counting_bytes(16));
    for i in 0..4 {
        assert_eq!(reader.position(), i * 4);
        let read_result = io.read_to_tensor(&mut ctx, &mut reader, vec![Some(1)]);
        assert_eq!(read_result.unwrap().nbytes(&ctx), 4);
    }
    assert!(io.read_to_tensor(&mut ctx, &mut reader, vec![None]).is_err());
}

#[test]
fn test_reader_2d() {
    let mut ctx = Context::init_managed(vec![0u8; MEMORY_SIZE]);
    let io = model(&[(ScalarKind::I8, 32)], DataType::I8, Dimension::D2);
    let mut reader = ByteStream::new(counting_bytes(64));
    for _ in 0..2 {
        let read_result = io.read_to_tensor(&mut ctx, &mut reader, vec![Some(16), Some(2)]);
        assert!(read_result.is_ok());
        let tensor = read_result.unwrap();
        assert_eq!(tensor.nbytes(&ctx), 32);
    }
    assert!(io
        .read_to_tensor(&mut ctx, &mut reader, vec![None, None])
        .is_err());
}

#[test]
fn test_reader_3d() {
    let mut ctx = Context::init_managed(vec![0u8; MEMORY_SIZE]);
    let io = model(&[(ScalarKind::I8, 8)], DataType::I8, Dimension::D3);
    let mut reader = ByteStream::new(counting_bytes(64));
    for _ in 0..8 {
        let read_result = io.read_to_tensor(&mut ctx, &mut reader, vec![Some(2), Some(2), Some(2)]);
        assert!(read_result.is_ok());
        let tensor = read_result.unwrap();
        assert_eq!(tensor.nbytes(&ctx), 8);
    }
    assert!(io
        .read_to_tensor(&mut ctx, &mut reader, vec![None, None, None])
        .is_err());
}

#[test]
fn sixteen_four_byte_records_then_failure() {
    let mut ctx = Context::init(MEMORY_SIZE);
    let io = model(&[(ScalarKind::I8, 4)], DataType::I8, Dimension::D1);
    let mut reader = ByteStream::new(counting_bytes(64));
    for i in 0..16 {
        let tensor = io.read_to_tensor(&mut ctx, &mut reader, vec![None]).unwrap();
        assert_eq!(tensor.nbytes(&ctx), 4);
        let k = (4 * i) as u8;
        assert_eq!(tensor.read_data(&ctx), vec![k, k + 1, k + 2, k + 3]);
    }
    assert_eq!(
        io.read_to_tensor(&mut ctx, &mut reader, vec![None]).map(|_| ()),
        Err(ModelIOError::Decode(DecodeFailure::UnexpectedEnd))
    );
    assert_eq!(reader.remaining(), 0);
}

#[test]
fn two_rect_records_then_failure() {
    let mut ctx = Context::init(MEMORY_SIZE);
    let io = model(&[(ScalarKind::I8, 32)], DataType::I8, Dimension::D2);
    let mut reader = ByteStream::new(counting_bytes(64));
    let first = io
        .read_to_tensor(&mut ctx, &mut reader, vec![Some(16), Some(2)])
        .unwrap();
    let second = io
        .read_to_tensor(&mut ctx, &mut reader, vec![Some(16), Some(2)])
        .unwrap();
    assert_eq!(first.nbytes(&ctx), 32);
    assert_eq!(second.nbytes(&ctx), 32);
    assert_eq!(first.get_ne(&ctx), [16, 2, 1, 1]);
    assert_eq!(second.read_data(&ctx), counting_bytes(64)[32..].to_vec());
    assert!(io
        .read_to_tensor(&mut ctx, &mut reader, vec![Some(16), Some(2)])
        .is_err());
}

#[test]
fn sequential_reads_stop_after_last_record() {
    let mut ctx = Context::init(MEMORY_SIZE);
    let io = model(
        &[(ScalarKind::I16, 3), (ScalarKind::U32, 1)],
        DataType::I16,
        Dimension::D1,
    );
    let mut reader = ByteStream::new(counting_bytes(50));
    let mut ok = 0;
    while io.read_to_tensor(&mut ctx, &mut reader, vec![None]).is_ok() {
        ok += 1;
        assert_eq!(reader.position(), ok * 10);
    }
    assert_eq!(ok, 5);
    assert_eq!(reader.position(), 50);
}

#[test]
fn rank1_unspecified_extent_spans_record() {
    let record = Record {
        fields: vec![Field::I32(vec![1, -2]), Field::I16(vec![3, 4])],
    };
    for datatype in [DataType::I8, DataType::I16, DataType::I32, DataType::F16, DataType::F32] {
        let mut ctx = Context::init(256);
        let io = model(&[(ScalarKind::I32, 2), (ScalarKind::I16, 2)], datatype, Dimension::D1);
        let t = io.to_tensor(record.clone(), &mut ctx, vec![None]).unwrap();
        assert_eq!(t.nbytes(&ctx), 12);
        assert_eq!(t.get_type(&ctx), datatype);
        assert_eq!(t.read_data(&ctx), record.encode());
    }
}

#[test]
fn to_tensor_copies_encoding_into_larger_tensor() {
    let mut ctx = Context::init(256);
    let io = model(&[(ScalarKind::I16, 2)], DataType::I16, Dimension::D2);
    let record = Record {
        fields: vec![Field::I16(vec![-1, 258])],
    };
    let t = io.to_tensor(record, &mut ctx, vec![Some(2), None]).unwrap();
    assert_eq!(t.get_ne(&ctx), [2, 1, 1, 1]);
    assert_eq!(t.nbytes(&ctx), 4);
    assert_eq!(t.get_i32_1d(&ctx, 0), Ok(-1));
    assert_eq!(t.get_i32_1d(&ctx, 1), Ok(258));
    let big = io
        .to_tensor(
            Record {
                fields: vec![Field::I16(vec![7, 8])],
            },
            &mut ctx,
            vec![Some(4), Some(2)],
        )
        .unwrap();
    assert_eq!(big.nbytes(&ctx), 16);
    assert_eq!(big.get_i32_1d(&ctx, 1), Ok(8));
}

#[test]
fn to_tensor_errors_leave_arena_untouched() {
    let mut ctx = Context::init(256);
    let record = Record {
        fields: vec![Field::I8(vec![1, 2, 3, 4, 5])],
    };
    let io = model(&[(ScalarKind::I8, 5)], DataType::I8, Dimension::D2);
    assert_eq!(
        io.to_tensor(record.clone(), &mut ctx, vec![None]).map(|_| ()),
        Err(ModelIOError::ShapeMismatch)
    );
    assert_eq!(
        io.to_tensor(record.clone(), &mut ctx, vec![Some(2), Some(2)]).map(|_| ()),
        Err(ModelIOError::OutOfBounds)
    );
    let i32_io = model(&[(ScalarKind::I8, 5)], DataType::I32, Dimension::D1);
    assert_eq!(
        i32_io.to_tensor(record.clone(), &mut ctx, vec![None]).map(|_| ()),
        Err(ModelIOError::OutOfBounds)
    );
    let count_io = model(&[(ScalarKind::I8, 5)], DataType::COUNT, Dimension::D1);
    assert_eq!(
        count_io.to_tensor(record, &mut ctx, vec![None]).map(|_| ()),
        Err(ModelIOError::UnsupportedDatatype)
    );
    assert_eq!(ctx.used_mem(), 0);
}

#[test]
fn plan_resolves_extents() {
    let io = model(&[(ScalarKind::I8, 12)], DataType::I32, Dimension::D3);
    let p = io.plan(12, &vec![None, None, Some(5)]).unwrap();
    assert_eq!((p.ne0, p.ne1, p.ne2), (3, 1, 5));
    let scalar = model(&[(ScalarKind::I8, 2)], DataType::I8, Dimension::Scalar);
    let p = scalar.plan(2, &vec![]).unwrap();
    assert_eq!(p.datatype, DataType::F32);
    assert_eq!((p.ne0, p.ne1, p.ne2), (1, 1, 1));
    assert_eq!(scalar.plan(5, &vec![]), Err(ModelIOError::OutOfBounds));
}

#[test]
fn scalar_record_becomes_f32_tensor() {
    let mut ctx = Context::init(64);
    let io = model(&[(ScalarKind::I16, 1)], DataType::I8, Dimension::Scalar);
    let record = Record {
        fields: vec![Field::I16(vec![0x0102])],
    };
    let t = io.to_tensor(record, &mut ctx, vec![]).unwrap();
    assert_eq!(t.get_type(&ctx), DataType::F32);
    assert_eq!(t.read_data(&ctx), vec![0x02, 0x01, 0, 0]);
}

#[test]
fn read_consumes_exactly_one_record() {
    let io = model(&[(ScalarKind::I32, 1), (ScalarKind::I8, 2)], DataType::I8, Dimension::D1);
    let mut stream = ByteStream::new(vec![0xff, 0xff, 0xff, 0xff, 0x05, 0xfb, 1, 0, 0, 0, 2]);
    let rec = io.read(&mut stream).unwrap();
    assert_eq!(rec.fields, vec![Field::I32(vec![-1]), Field::I8(vec![5, -5])]);
    assert_eq!(stream.position(), 6);
    assert_eq!(stream.remaining(), 5);
    assert_eq!(
        io.read(&mut stream).map(|_| ()),
        Err(ModelIOError::Decode(DecodeFailure::UnexpectedEnd))
    );
    // a failed read consumes nothing
    assert_eq!(stream.position(), 6);
}

#[test]
fn encoding_is_fixed_width_little_endian() {
    let record = Record {
        fields: vec![
            Field::I8(vec![-2]),
            Field::I16(vec![0x0102, -1]),
            Field::I32(vec![0x0a0b0c0d]),
            Field::U32(vec![1.5f32.to_bits()]),
        ],
    };
    let mut expected = vec![0xfe, 0x02, 0x01, 0xff, 0xff, 0x0d, 0x0c, 0x0b, 0x0a];
    expected.extend_from_slice(&1.5f32.to_le_bytes());
    assert_eq!(record.encode(), expected);
}

#[test]
fn decode_of_encode_is_identity() {
    let records = vec![
        Record {
            fields: vec![Field::I8(vec![i8::MIN, -1, 0, 1, i8::MAX])],
        },
        Record {
            fields: vec![
                Field::I16(vec![i16::MIN, 0, i16::MAX]),
                Field::I32(vec![i32::MIN, -7, i32::MAX]),
                Field::U32(vec![0, u32::MAX, (-0.25f32).to_bits()]),
            ],
        },
        Record {
            fields: vec![Field::I32(vec![]), Field::I8(vec![3])],
        },
    ];
    let layouts = vec![
        layout(&[(ScalarKind::I8, 5)]),
        layout(&[(ScalarKind::I16, 3), (ScalarKind::I32, 3), (ScalarKind::U32, 3)]),
        layout(&[(ScalarKind::I32, 0), (ScalarKind::I8, 1)]),
    ];
    for (record, l) in records.iter().zip(layouts.iter()) {
        let bytes = record.encode();
        assert_eq!(l.encoded_len(), Some(bytes.len()));
        let (decoded, n) = Record::decode(l, &bytes).unwrap();
        assert_eq!(n, bytes.len());
        assert_eq!(&decoded, record);
    }
}

#[test]
fn decode_reports_unexpected_end() {
    let l = layout(&[(ScalarKind::I16, 2)]);
    assert_eq!(Record::decode(&l, &[1, 2, 3]), Err(DecodeFailure::UnexpectedEnd));
    assert_eq!(
        Record::decode(&l, &[1, 0, 2, 0, 9]),
        Ok((
            Record {
                fields: vec![Field::I16(vec![1, 2])]
            },
            4
        ))
    );
}

#[test]
fn encoded_len_overflow() {
    let l = layout(&[(ScalarKind::I32, usize::MAX / 2)]);
    assert_eq!(l.encoded_len(), None);
    assert_eq!(layout(&[(ScalarKind::I16, 3), (ScalarKind::U32, 2)]).encoded_len(), Some(14));
}

#[test]
fn field_accessors() {
    let mut f = Field::empty(ScalarKind::U32);
    f.push(7);
    f.push(4_000_000_000);
    assert_eq!(f.kind(), ScalarKind::U32);
    assert_eq!(f.len(), 2);
    assert_eq!(f.get(1), 4_000_000_000);
    assert_eq!(f, Field::U32(vec![7, 4_000_000_000]));
    assert_eq!(ScalarKind::I16.width(), 2);
}
