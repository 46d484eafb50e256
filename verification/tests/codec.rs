use std::collections::HashMap;

use candle_core::{Device, Tensor as CandleTensor};
use candle_fl::service::command::train_response;
use candle_fl::service::publisher::publish;
use candle_fl::{
    Command, DType, Error, JobId, ParameterMap, StatusCode, Tensor, WorkerAddr, WorkerMessage,
};

const TEXT: &str = "a1a2a3a4-b1b2-c1c2-d1d2-d3d4d5d6d7d8";
const BITS: u128 = 0xa1a2a3a4b1b2c1c2d1d2d3d4d5d6d7d8;

fn doubles(values: &[f64], shape: Vec<usize>) -> Tensor {
    let data: Vec<u8> = values.iter().flat_map(|v| v.to_le_bytes()).collect();
    Tensor::new(DType::F64, shape, data).unwrap()
}

fn as_doubles(tensor: &Tensor) -> Vec<f64> {
    tensor
        .data()
        .chunks(8)
        .map(|c| f64::from_le_bytes(c.try_into().unwrap()))
        .collect()
}

fn sample() -> ParameterMap {
    let mut map = ParameterMap::new();
    map.insert("ln1.weight".to_string(), doubles(&[1.0, 2.0, 3.0, 4.0], vec![2, 2]));
    map.insert("ln1.bias".to_string(), doubles(&[0.5, -0.5], vec![2]));
    map
}

#[test]
fn a_tensor_needs_as_many_bytes_as_its_shape_asks_for() {
    assert!(Tensor::new(DType::F32, vec![2, 3], vec![0; 24]).is_some());
    assert!(Tensor::new(DType::F32, vec![2, 3], vec![0; 23]).is_none());
    assert!(Tensor::new(DType::F64, vec![2, 3], vec![0; 24]).is_none());
    assert!(Tensor::new(DType::F16, vec![4], vec![0; 8]).is_some());
    assert!(Tensor::new(DType::BF16, vec![4], vec![0; 8]).is_some());
    // A scalar has one element, an empty dimension none.
    assert!(Tensor::new(DType::F64, vec![], vec![0; 8]).is_some());
    assert!(Tensor::new(DType::F64, vec![], vec![]).is_none());
    assert!(Tensor::new(DType::F64, vec![3, 0], vec![]).is_some());
}

#[test]
fn a_tensor_whose_element_count_overflows_is_refused() {
    assert!(Tensor::new(DType::F64, vec![usize::MAX, 2], vec![]).is_none());
    assert!(Tensor::new(DType::F64, vec![usize::MAX, 2, 0], vec![]).is_none());
    assert!(Tensor::new(DType::F64, vec![usize::MAX / 4], vec![]).is_none());
}

#[test]
fn element_sizes() {
    assert_eq!(DType::F16.size(), 2);
    assert_eq!(DType::BF16.size(), 2);
    assert_eq!(DType::F32.size(), 4);
    assert_eq!(DType::F64.size(), 8);
}

#[test]
fn tensors_add_element_by_element() {
    let a = doubles(&[1.0, 2.0, 3.0, 4.0], vec![2, 2]);
    let b = doubles(&[0.5, 0.25, -3.0, 10.0], vec![2, 2]);
    let sum = a.add(&b).unwrap();
    assert_eq!(sum.dtype(), DType::F64);
    assert_eq!(sum.shape(), &vec![2, 2]);
    assert_eq!(as_doubles(&sum), vec![1.5, 2.25, 0.0, 14.0]);
    assert!(a.compatible_with(&b));
}

#[test]
fn tensors_of_different_shape_or_type_do_not_add() {
    let a = doubles(&[1.0, 2.0], vec![2]);
    let row = doubles(&[1.0, 2.0], vec![1, 2]);
    let single = Tensor::new(DType::F32, vec![2], vec![0; 8]).unwrap();
    assert!(a.add(&row).is_none());
    assert!(a.add(&single).is_none());
    assert!(!a.compatible_with(&row));
    assert!(!a.compatible_with(&single));
}

#[test]
fn a_tensor_scales_by_the_reciprocal_of_a_count() {
    let a = doubles(&[3.0, -9.0, 0.0, 1.5], vec![4]);
    assert_eq!(as_doubles(&a.scale_down(3)), vec![1.0, -3.0, 0.0, 0.5]);
    assert_eq!(as_doubles(&a.scale_down(1)), vec![3.0, -9.0, 0.0, 1.5]);

    let data: Vec<u8> = [3.0f32, 6.0].iter().flat_map(|v| v.to_le_bytes()).collect();
    let single = Tensor::new(DType::F32, vec![2], data).unwrap().scale_down(2);
    let halves: Vec<f32> = single
        .data()
        .chunks(4)
        .map(|c| f32::from_le_bytes(c.try_into().unwrap()))
        .collect();
    assert_eq!(halves, vec![1.5, 3.0]);
}

#[test]
fn a_copy_of_a_tensor_holds_the_same() {
    let a = doubles(&[1.0, 2.0], vec![2]);
    let b = a.clone();
    assert_eq!(b.dtype(), a.dtype());
    assert_eq!(b.shape(), a.shape());
    assert_eq!(b.data(), a.data());
}

#[test]
fn a_map_holds_one_tensor_for_each_name() {
    let mut map = ParameterMap::new();
    assert_eq!(map.len(), 0);
    let a = "a".to_string();
    assert!(!map.contains(&a));
    assert!(map.get(&a).is_none());

    map.insert(a.clone(), doubles(&[1.0], vec![1]));
    map.insert("b".to_string(), doubles(&[2.0], vec![1]));
    map.insert(a.clone(), doubles(&[3.0], vec![1]));

    assert_eq!(map.len(), 2);
    assert!(map.contains(&a));
    assert_eq!(as_doubles(map.get(&a).unwrap()), vec![3.0]);
    let mut names = map.names();
    names.sort();
    assert_eq!(names, vec!["a".to_string(), "b".to_string()]);

    let copy = map.clone();
    assert_eq!(copy.len(), 2);
    assert_eq!(as_doubles(copy.get(&"b".to_string()).unwrap()), vec![2.0]);
}

#[test]
fn maps_merge_name_by_name() {
    let mut acc = ParameterMap::new();
    acc.insert("a".to_string(), doubles(&[1.0], vec![1]));
    acc.insert("b".to_string(), doubles(&[2.0], vec![1]));
    let mut reply = ParameterMap::new();
    reply.insert("b".to_string(), doubles(&[10.0], vec![1]));
    reply.insert("c".to_string(), doubles(&[20.0], vec![1]));

    let merged = acc.merge(&reply).unwrap();
    assert_eq!(merged.len(), 3);
    assert_eq!(as_doubles(merged.get(&"a".to_string()).unwrap()), vec![1.0]);
    assert_eq!(as_doubles(merged.get(&"b".to_string()).unwrap()), vec![12.0]);
    assert_eq!(as_doubles(merged.get(&"c".to_string()).unwrap()), vec![20.0]);

    let halves = merged.scale_down(2);
    assert_eq!(as_doubles(halves.get(&"b".to_string()).unwrap()), vec![6.0]);

    let mut odd = ParameterMap::new();
    odd.insert("c".to_string(), doubles(&[1.0, 2.0], vec![2]));
    assert!(merged.merge(&odd).is_none());
}

#[test]
fn encoded_maps_decode_to_the_same() {
    let map = sample();
    let bytes = map.encode().unwrap();
    let back = ParameterMap::decode(&bytes).unwrap();

    assert_eq!(back.len(), 2);
    let weight = back.get(&"ln1.weight".to_string()).unwrap();
    assert_eq!(weight.dtype(), DType::F64);
    assert_eq!(weight.shape(), &vec![2, 2]);
    assert_eq!(as_doubles(weight), vec![1.0, 2.0, 3.0, 4.0]);
    assert_eq!(as_doubles(back.get(&"ln1.bias".to_string()).unwrap()), vec![0.5, -0.5]);
    // The bytes do not depend on the order in which the names were put in.
    let mut other = ParameterMap::new();
    other.insert("ln1.bias".to_string(), doubles(&[0.5, -0.5], vec![2]));
    other.insert("ln1.weight".to_string(), doubles(&[1.0, 2.0, 3.0, 4.0], vec![2, 2]));
    assert_eq!(other.encode().unwrap(), bytes);
}

#[test]
fn encoded_maps_are_archives_that_candle_reads() {
    let bytes = sample().encode().unwrap();
    let tensors = candle_core::safetensors::load_buffer(&bytes, &Device::Cpu).unwrap();
    assert_eq!(tensors.len(), 2);
    assert_eq!(
        tensors.get("ln1.weight").unwrap().to_vec2::<f64>().unwrap(),
        vec![vec![1.0, 2.0], vec![3.0, 4.0]]
    );
}

#[test]
fn archives_that_candle_writes_decode() {
    let mut tensors = HashMap::new();
    tensors.insert(
        "w".to_string(),
        CandleTensor::new(vec![1.0f32, 2.0, 3.0], &Device::Cpu).unwrap(),
    );
    let bytes = safetensors::serialize(&tensors, None).unwrap();
    let map = ParameterMap::decode(&bytes).unwrap();
    let w = map.get(&"w".to_string()).unwrap();
    assert_eq!(w.dtype(), DType::F32);
    assert_eq!(w.shape(), &vec![3]);
    let mut expected = Vec::new();
    for v in [1.0f32, 2.0, 3.0] {
        expected.extend(v.to_le_bytes());
    }
    assert_eq!(w.data(), &expected);
}

#[test]
fn bytes_that_are_no_archive_do_not_decode() {
    assert_eq!(ParameterMap::decode(&[]).err(), Some(Error::DecodeError));
    assert_eq!(ParameterMap::decode(&[1, 2, 3]).err(), Some(Error::DecodeError));
    let mut bytes = sample().encode().unwrap();
    bytes.pop();
    assert_eq!(ParameterMap::decode(&bytes).err(), Some(Error::DecodeError));
}

#[test]
fn archives_of_integers_do_not_decode() {
    let mut tensors = HashMap::new();
    tensors.insert(
        "steps".to_string(),
        CandleTensor::new(vec![1u32, 2, 3], &Device::Cpu).unwrap(),
    );
    let bytes = safetensors::serialize(&tensors, None).unwrap();
    assert_eq!(ParameterMap::decode(&bytes).err(), Some(Error::DecodeError));
}

#[test]
fn an_empty_map_encodes_and_decodes() {
    let bytes = ParameterMap::new().encode().unwrap();
    assert_eq!(ParameterMap::decode(&bytes).unwrap().len(), 0);
}

#[test]
fn job_identifiers_travel_as_hyphenated_text() {
    assert_eq!(JobId(BITS).to_text(), TEXT);
    assert_eq!(JobId::parse(TEXT), Some(JobId(BITS)));
    assert_eq!(JobId::parse("A1A2A3A4B1B2C1C2D1D2D3D4D5D6D7D8"), Some(JobId(BITS)));
    assert_eq!(JobId::parse(""), None);
    assert_eq!(JobId::parse("job-1"), None);
    assert_eq!(JobId(0).to_text(), "00000000-0000-0000-0000-000000000000");
}

#[test]
fn a_published_reply_becomes_a_command() {
    let addr = WorkerAddr::V6 { ip: 1, port: 50051, flowinfo: 0, scope_id: 0 };
    let weights = sample().encode().unwrap();

    let fit = WorkerMessage::FitResponse { job_id: TEXT.to_string(), weights: weights.clone() };
    match publish(addr, Some(fit)) {
        Ok(Some(Command::SetFitResult { job_id, addr: from, weights })) => {
            assert_eq!(job_id, JobId(BITS));
            assert_eq!(from, addr);
            assert_eq!(as_doubles(weights.get(&"ln1.bias".to_string()).unwrap()), vec![0.5, -0.5]);
        }
        _ => panic!("the reply must be routed"),
    }

    let initial = WorkerMessage::WeightsResponse { job_id: TEXT.to_string(), weights };
    assert!(matches!(
        publish(addr, Some(initial)),
        Ok(Some(Command::SetFitResult { .. }))
    ));
    assert!(matches!(publish(addr, None), Ok(None)));
}

#[test]
fn a_published_reply_with_a_bad_field_is_refused() {
    let addr = WorkerAddr::V4 { ip: 1, port: 2 };
    let weights = sample().encode().unwrap();

    let bad_id = WorkerMessage::FitResponse { job_id: "nothing".to_string(), weights };
    assert_eq!(publish(addr, Some(bad_id)).err(), Some(Error::InvalidJobId));

    let bad_weights = WorkerMessage::FitResponse { job_id: TEXT.to_string(), weights: vec![1] };
    assert_eq!(publish(addr, Some(bad_weights)).err(), Some(Error::DecodeError));

    // The identifier is looked at first.
    let both = WorkerMessage::WeightsResponse { job_id: String::new(), weights: vec![1] };
    assert_eq!(publish(addr, Some(both)).err(), Some(Error::InvalidJobId));
}

#[test]
fn a_training_call_answers_with_the_encoded_weights() {
    assert_eq!(train_response(Ok(sample())), Ok(sample().encode().unwrap()));
    assert_eq!(train_response(Err(Error::UnexpectedEvent)), Err(Error::UnexpectedEvent));
}

#[test]
fn errors_map_to_the_codes_of_the_transport() {
    let addr = WorkerAddr::V4 { ip: 1, port: 2 };
    let job_id = JobId(1);
    assert_eq!(Error::JobNotFound { job_id }.status_code(), StatusCode::NotFound);
    assert_eq!(Error::DecodeError.status_code(), StatusCode::InvalidArgument);
    assert_eq!(Error::InvalidJobId.status_code(), StatusCode::InvalidArgument);
    for e in [
        Error::JobExists { job_id },
        Error::NoPendingTask { addr },
        Error::WorkerUnavailable { job_id },
        Error::SendFailed { addr },
        Error::ChannelClosed { addr },
        Error::EncodeError,
        Error::IncompatibleTensors,
        Error::UnexpectedEvent,
    ] {
        assert_eq!(e.status_code(), StatusCode::Internal);
    }
}

#[test]
fn a_map_whose_header_is_too_large_does_not_encode() {
    // The archive format limits the header, which holds the names, to 100 MB.
    let mut map = ParameterMap::new();
    map.insert("n".repeat(100_000_001), doubles(&[1.0], vec![1]));
    assert_eq!(map.encode().err(), Some(Error::EncodeError));
    assert_eq!(train_response(Ok(map)), Err(Error::EncodeError));
}

fn archive(header: &str, data: &[u8]) -> Vec<u8> {
    let mut bytes = (header.len() as u64).to_le_bytes().to_vec();
    bytes.extend(header.as_bytes());
    bytes.extend(data);
    bytes
}

#[test]
fn the_tensors_of_an_archive_must_fill_its_data() {
    let header = r#"{"w":{"dtype":"F64","shape":[1],"data_offsets":[0,8]}}"#;
    let one = 1.0f64.to_le_bytes();

    let map = ParameterMap::decode(&archive(header, &one)).unwrap();
    assert_eq!(as_doubles(map.get(&"w".to_string()).unwrap()), vec![1.0]);

    assert_eq!(ParameterMap::decode(&archive(header, &one[..7])).err(), Some(Error::DecodeError));
    assert_eq!(ParameterMap::decode(&archive(header, &[])).err(), Some(Error::DecodeError));
    let mut longer = one.to_vec();
    longer.push(0);
    assert_eq!(ParameterMap::decode(&archive(header, &longer)).err(), Some(Error::DecodeError));

    assert_eq!(ParameterMap::decode(&archive("{}", &[])).unwrap().len(), 0);
    assert_eq!(ParameterMap::decode(&archive("{}", &[0])).err(), Some(Error::DecodeError));
}

#[test]
fn two_tensors_lie_one_behind_the_other() {
    let header = concat_header();
    let mut data = Vec::new();
    data.extend(2.0f64.to_le_bytes());
    data.extend(3.0f32.to_le_bytes());
    data.extend(4.0f32.to_le_bytes());
    let map = ParameterMap::decode(&archive(&header, &data)).unwrap();
    assert_eq!(map.len(), 2);
    assert_eq!(as_doubles(map.get(&"a".to_string()).unwrap()), vec![2.0]);
    let b = map.get(&"b".to_string()).unwrap();
    assert_eq!(b.dtype(), DType::F32);
    assert_eq!(b.shape(), &vec![2, 1]);
    let mut expected = Vec::new();
    expected.extend(3.0f32.to_le_bytes());
    expected.extend(4.0f32.to_le_bytes());
    assert_eq!(b.data(), &expected);
}

fn concat_header() -> String {
    let a = r#""a":{"dtype":"F64","shape":[],"data_offsets":[0,8]}"#;
    let b = r#""b":{"dtype":"F32","shape":[2,1],"data_offsets":[8,16]}"#;
    format!("{{{a},{b}}}")
}

#[test]
fn a_header_must_lie_within_the_archive_and_the_limit() {
    let mut bytes = 1000u64.to_le_bytes().to_vec();
    bytes.extend(b"{}");
    assert_eq!(ParameterMap::decode(&bytes).err(), Some(Error::DecodeError));

    let mut bytes = 100_000_001u64.to_le_bytes().to_vec();
    bytes.extend(b"{}");
    assert_eq!(ParameterMap::decode(&bytes).err(), Some(Error::DecodeError));

    let mut bytes = u64::MAX.to_le_bytes().to_vec();
    bytes.extend(b"{}");
    assert_eq!(ParameterMap::decode(&bytes).err(), Some(Error::DecodeError));

    assert_eq!(ParameterMap::decode(&[2, 0, 0, 0, 0, 0, 0]).err(), Some(Error::DecodeError));
    assert_eq!(ParameterMap::decode(&archive("{", &[])).err(), Some(Error::DecodeError));
    assert_eq!(ParameterMap::decode(&archive("\u{fffd}", &[])).err(), Some(Error::DecodeError));
}

#[test]
fn a_header_that_promises_more_than_memory_holds_is_refused() {
    // Eight tensors of 2^61 - 1 bytes each: together eight bytes short of 2^64.
    let each: u64 = (1 << 61) - 1;
    let mut entries = Vec::new();
    for (i, dtype) in ["U8", "F16"].iter().enumerate() {
        entries.clear();
        for n in 0..8u64 {
            let elements = if i == 0 { each } else { (each - 1) / 2 };
            let end = if i == 0 { (n + 1) * each } else { (n + 1) * (each - 1) };
            let start = end - if i == 0 { each } else { each - 1 };
            entries.push(format!(
                "\"t{n}\":{{\"dtype\":\"{dtype}\",\"shape\":[{elements}],\"data_offsets\":[{start},{end}]}}"
            ));
        }
        let header = format!("{{{}}}", entries.join(","));
        assert_eq!(ParameterMap::decode(&archive(&header, &[])).err(), Some(Error::DecodeError));
    }
}

#[test]
fn a_tensor_without_elements_may_have_extents_that_do_not_multiply() {
    let shape = vec![0, usize::MAX, usize::MAX];
    let a = Tensor::new(DType::F32, shape.clone(), vec![]).unwrap();
    let b = Tensor::new(DType::F32, shape.clone(), vec![]).unwrap();
    let sum = a.add(&b).unwrap();
    assert_eq!(sum.shape(), &shape);
    assert!(sum.data().is_empty());
    let scaled = a.scale_down(3);
    assert_eq!(scaled.shape(), &shape);
    assert!(scaled.data().is_empty());
    assert_eq!(a.element_count(), 0);

    let header = r#"{"w":{"dtype":"F32","shape":[0,18446744073709551615,18446744073709551615],"data_offsets":[0,0]}}"#;
    let map = ParameterMap::decode(&archive(header, &[])).unwrap();
    let average = candle_fl::average_weights(&vec![map.clone(), map]).unwrap();
    assert_eq!(average.get(&"w".to_string()).unwrap().shape(), &shape);
}

#[test]
fn a_tensor_counts_its_elements() {
    assert_eq!(doubles(&[1.0, 2.0, 3.0, 4.0, 5.0, 6.0], vec![2, 3]).element_count(), 6);
    assert_eq!(doubles(&[1.0], vec![]).element_count(), 1);
}
