use ggml_rs::{Context, DataType, Dimension, Tensor};

const MEMORY_SIZE: usize = 4096;

fn check_i32_value_setting(ctx: &mut Context, tensor: &Tensor) {
    tensor.set_i32(ctx, 0);
    assert_eq!(tensor.read_data(ctx), vec![0u8; 5]);
    assert!(tensor.set_i32_1d(ctx, 0, 1).is_ok());
    assert!(tensor.set_i32_1d(ctx, 1, 2).is_ok());
    assert!(tensor.set_i32_1d(ctx, 2, 3).is_ok());
    assert!(tensor.set_i32_1d(ctx, 3, 5).is_ok());
    assert!(tensor.set_i32_1d(ctx, 4, 7).is_ok());
    assert!(tensor.set_i32_1d(ctx, 5, 7).is_err());
    assert_eq!(tensor.read_data(ctx), vec![1u8, 2, 3, 5, 7]);
    assert_eq!(tensor.get_i32_1d(ctx, 0), Ok(1));
    assert_eq!(tensor.get_i32_1d(ctx, 1), Ok(2));
    assert_eq!(tensor.get_i32_1d(ctx, 2), Ok(3));
    assert_eq!(tensor.get_i32_1d(ctx, 3), Ok(5));
    assert_eq!(tensor.get_i32_1d(ctx, 4), Ok(7));
}

fn check_f32_value_setting(ctx: &mut Context, tensor: &Tensor) {
    tensor.set_bits(ctx, 0.0f32.to_bits());
    assert_eq!(tensor.read_data(ctx), vec![0u8; 20]);
    assert!(tensor.set_bits_1d(ctx, 0, (1i8 as f32).to_bits()).is_ok());
    assert!(tensor.set_bits_1d(ctx, 1, (2i16 as f32).to_bits()).is_ok());
    assert!(tensor.set_bits_1d(ctx, 2, (3i16 as f32).to_bits()).is_ok());
    assert!(tensor.set_bits_1d(ctx, 3, 5f32.to_bits()).is_ok());
    assert!(tensor.set_bits_1d(ctx, 4, 7f32.to_bits()).is_ok());
    assert!(tensor.set_bits_1d(ctx, 5, 7f32.to_bits()).is_err());
    let values: Vec<f32> = (0..5)
        .map(|i| f32::from_bits(tensor.get_bits_1d(ctx, i).unwrap()))
        .collect();
    assert_eq!(values, vec![1.0, 2.0, 3.0, 5.0, 7.0]);
    let data = tensor.read_data(ctx);
    assert_eq!(&data[0..4], &1.0f32.to_le_bytes());
    assert_eq!(&data[16..20], &7.0f32.to_le_bytes());
}

#[test]
fn test_managed_memory() {
    let buffer = vec![0u8; MEMORY_SIZE];
    let mut ctx = Context::init_managed(buffer);
    let tensor_a = ctx.new_tensor_1d(DataType::I8, 5);
    check_i32_value_setting(&mut ctx, &tensor_a);
    let tensor_b = ctx.new_tensor_1d(DataType::F32, 5);
    check_f32_value_setting(&mut ctx, &tensor_b);
    assert_eq!(ctx.used_mem(), 25);
    assert_eq!(ctx.into_buffer().len(), MEMORY_SIZE);
}

#[test]
fn test_internally_managed_memory() {
    let mut ctx = Context::init(MEMORY_SIZE);
    let tensor_a = ctx.new_tensor_1d(DataType::I8, 5);
    check_i32_value_setting(&mut ctx, &tensor_a);
    let tensor_b = ctx.new_tensor_1d(DataType::F32, 5);
    check_f32_value_setting(&mut ctx, &tensor_b);
    // the first tensor kept its values while the second was written
    assert_eq!(tensor_a.read_data(&ctx), vec![1u8, 2, 3, 5, 7]);
}

#[test]
fn tensor_shapes_and_strides() {
    let mut ctx = Context::init(1024);
    let t1 = ctx.new_tensor_1d(DataType::I16, 6);
    assert_eq!(t1.nbytes(&ctx), 12);
    assert_eq!(t1.nelements(&ctx), 6);
    assert_eq!(t1.element_size(&ctx), 2);
    assert_eq!(t1.get_type(&ctx), DataType::I16);
    assert_eq!(t1.get_dim(&ctx), Dimension::D1);
    assert_eq!(t1.get_ne(&ctx), [6, 1, 1, 1]);
    assert_eq!(t1.get_nb(&ctx), [2, 12, 12, 12]);
    let t2 = ctx.new_tensor_2d(DataType::F32, 3, 4);
    assert_eq!(t2.nbytes(&ctx), 48);
    assert_eq!(t2.get_ne(&ctx), [3, 4, 1, 1]);
    assert_eq!(t2.get_nb(&ctx), [4, 12, 48, 48]);
    let t3 = ctx.new_tensor_3d(DataType::I32, 2, 3, 4);
    assert_eq!(t3.nelements(&ctx), 24);
    assert_eq!(t3.nbytes(&ctx), 96);
    assert_eq!(t3.get_dim(&ctx), Dimension::D3);
    assert_eq!(t3.get_nb(&ctx), [4, 8, 24, 96]);
    assert_eq!(ctx.used_mem(), 12 + 48 + 96);
    assert_eq!(ctx.free_mem(), 1024 - 156);
    assert_eq!(ctx.capacity(), 1024);
}

#[test]
fn tensor_nbytes_reports_overflow() {
    assert_eq!(Context::tensor_nbytes(DataType::I32, 2, 3, 4), Some(96));
    assert_eq!(Context::tensor_nbytes(DataType::F16, 5, 0, 7), Some(0));
    assert_eq!(Context::tensor_nbytes(DataType::I32, usize::MAX, 2, 1), None);
}

#[test]
fn scalar_from_bits() {
    let mut ctx = Context::init(64);
    let t = ctx.new_f32_from_bits(2.5f32.to_bits());
    assert_eq!(t.get_type(&ctx), DataType::F32);
    assert_eq!(t.get_dim(&ctx), Dimension::Scalar);
    assert_eq!(t.nbytes(&ctx), 4);
    assert_eq!(f32::from_bits(t.get_bits_1d(&ctx, 0).unwrap()), 2.5);
}

#[test]
fn write_bytes_too_long_is_refused_and_changes_nothing() {
    let mut ctx = Context::init(64);
    let t = ctx.new_tensor_1d(DataType::I8, 4);
    assert_eq!(t.write_bytes(&mut ctx, &[9, 8, 7, 6]), Ok(()));
    assert_eq!(t.write_bytes(&mut ctx, &[1, 2, 3, 4, 5]), Err(()));
    assert_eq!(t.read_data(&ctx), vec![9, 8, 7, 6]);
}

#[test]
fn write_bytes_shorter_keeps_tail() {
    let mut ctx = Context::init(64);
    let t = ctx.new_tensor_1d(DataType::I16, 3);
    let other = ctx.new_tensor_1d(DataType::I8, 2);
    assert_eq!(other.write_bytes(&mut ctx, &[42, 43]), Ok(()));
    assert_eq!(t.write_bytes(&mut ctx, &[1, 2, 3, 4, 5, 6]), Ok(()));
    assert_eq!(t.write_bytes(&mut ctx, &[10, 20]), Ok(()));
    assert_eq!(t.read_data(&ctx), vec![10, 20, 3, 4, 5, 6]);
    assert_eq!(t.get_i32_1d(&ctx, 0), Ok(20 * 256 + 10));
    assert_eq!(other.read_data(&ctx), vec![42, 43]);
}

#[test]
fn set_then_get_keeps_other_indices() {
    let mut ctx = Context::init(256);
    let t = ctx.new_tensor_1d(DataType::I32, 4);
    t.set_i32(&mut ctx, -3);
    assert_eq!(t.set_i32_1d(&mut ctx, 2, 123_456_789), Ok(()));
    assert_eq!(t.get_i32_1d(&ctx, 2), Ok(123_456_789));
    assert_eq!(t.get_i32_1d(&ctx, 0), Ok(-3));
    assert_eq!(t.get_i32_1d(&ctx, 1), Ok(-3));
    assert_eq!(t.get_i32_1d(&ctx, 3), Ok(-3));
    assert_eq!(t.set_i32_1d(&mut ctx, 4, 1), Err(()));
    assert_eq!(t.get_i32_1d(&ctx, 4), Err(()));
    assert_eq!(t.set_bits_1d(&mut ctx, 4, 1), Err(()));
    assert_eq!(t.get_bits_1d(&ctx, 4), Err(()));
    assert_eq!(t.get_bits_1d(&ctx, 0), Ok((-3i32) as u32));
}

#[test]
fn narrow_elements_keep_low_bytes_and_sign_extend() {
    let mut ctx = Context::init(256);
    let t8 = ctx.new_tensor_1d(DataType::I8, 2);
    assert_eq!(t8.set_i32_1d(&mut ctx, 0, -1), Ok(()));
    assert_eq!(t8.set_i32_1d(&mut ctx, 1, 300), Ok(()));
    assert_eq!(t8.read_data(&ctx), vec![0xff, 44]);
    assert_eq!(t8.get_i32_1d(&ctx, 0), Ok(-1));
    assert_eq!(t8.get_i32_1d(&ctx, 1), Ok(44));
    let t16 = ctx.new_tensor_1d(DataType::I16, 2);
    assert_eq!(t16.set_i32_1d(&mut ctx, 1, -2), Ok(()));
    assert_eq!(t16.get_i32_1d(&ctx, 1), Ok(-2));
    assert_eq!(t16.get_bits_1d(&ctx, 1), Ok(0xfffe));
    assert_eq!(t16.set_bits_1d(&mut ctx, 0, 0x1_2345), Ok(()));
    assert_eq!(t16.get_bits_1d(&ctx, 0), Ok(0x2345));
}

#[test]
fn read_elements_bounds() {
    let mut ctx = Context::init(64);
    let t = ctx.new_tensor_1d(DataType::I8, 8);
    assert_eq!(t.write_bytes(&mut ctx, &[0, 1, 2, 3, 4, 5, 6, 7]), Ok(()));
    assert_eq!(t.read_elements(&ctx, 2, 1, 2), Ok(vec![2, 3, 4, 5]));
    assert_eq!(t.read_elements(&ctx, 4, 1, 1), Ok(vec![4, 5, 6, 7]));
    assert_eq!(t.read_elements(&ctx, 4, 1, 2), Err(()));
    assert_eq!(t.read_elements(&ctx, 1, usize::MAX, 2), Err(()));
    assert_eq!(t.read_elements(&ctx, 1, 0, 0), Ok(vec![]));
}

#[test]
fn reset_kills_earlier_handles() {
    let mut ctx = Context::init(64);
    let t = ctx.new_tensor_1d(DataType::I32, 4);
    let shared = t.share();
    assert!(ctx.is_live(&t));
    assert!(ctx.is_live(&shared));
    assert_eq!(ctx.used_mem(), 16);
    ctx.reset();
    assert!(!ctx.is_live(&t));
    assert!(!ctx.is_live(&shared));
    assert_eq!(ctx.used_mem(), 0);
    let u = ctx.new_tensor_1d(DataType::I8, 64);
    assert!(ctx.is_live(&u));
    assert_eq!(ctx.free_mem(), 0);
}

#[test]
fn shared_handles_see_the_same_tensor() {
    let mut ctx = Context::init(64);
    let t = ctx.new_tensor_1d(DataType::I8, 3);
    let s = t.share();
    assert_eq!(s.set_i32_1d(&mut ctx, 1, 9), Ok(()));
    assert_eq!(t.get_i32_1d(&ctx, 1), Ok(9));
    assert_eq!(ctx.used_mem(), 3);
}
