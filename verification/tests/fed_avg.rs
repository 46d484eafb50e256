use std::collections::HashMap;

use candle_core::{Device, Tensor as CandleTensor};
use candle_fl::{
    average_weights, collect_round, leg_outcome, DType, Error, FedAvg, FitAction, FitEvent,
    FitPhase, JobId, ParameterMap, Tensor, WorkerAddr,
};

fn to_parameters(tensors: &HashMap<String, CandleTensor>) -> ParameterMap {
    let bytes = safetensors::serialize(tensors, None).unwrap();
    ParameterMap::decode(&bytes).unwrap()
}

fn to_tensors(parameters: &ParameterMap) -> HashMap<String, CandleTensor> {
    let bytes = parameters.encode().unwrap();
    candle_core::safetensors::load_buffer(&bytes, &Device::Cpu).unwrap()
}

fn doubles(values: &[f64], shape: Vec<usize>) -> Tensor {
    let data: Vec<u8> = values.iter().flat_map(|v| v.to_le_bytes()).collect();
    Tensor::new(DType::F64, shape, data).unwrap()
}

fn singles(values: &[f32], shape: Vec<usize>) -> Tensor {
    let data: Vec<u8> = values.iter().flat_map(|v| v.to_le_bytes()).collect();
    Tensor::new(DType::F32, shape, data).unwrap()
}

fn as_doubles(tensor: &Tensor) -> Vec<f64> {
    tensor
        .data()
        .chunks(8)
        .map(|c| f64::from_le_bytes(c.try_into().unwrap()))
        .collect()
}

fn as_singles(tensor: &Tensor) -> Vec<f32> {
    tensor
        .data()
        .chunks(4)
        .map(|c| f32::from_le_bytes(c.try_into().unwrap()))
        .collect()
}

fn one_entry(name: &str, tensor: Tensor) -> ParameterMap {
    let mut map = ParameterMap::new();
    map.insert(name.to_string(), tensor);
    map
}

#[test]
fn test_average_weights_trivial() {
    let dev = Device::Cpu;

    let tensor1 = CandleTensor::new(vec![1.0, 1.0], &dev).unwrap();
    let tensor2 = CandleTensor::new(vec![1.0, 1.0], &dev).unwrap();

    let mut tensors = Vec::new();
    let mut map = HashMap::new();
    map.insert("a".to_string(), tensor1);
    map.insert("b".to_string(), tensor2);
    tensors.push(to_parameters(&map));

    let result = to_tensors(&average_weights(&tensors).unwrap());

    assert_eq!(result.len(), 2);
    assert_eq!(
        result.get("a").unwrap().to_vec1::<f64>().unwrap(),
        vec![1.0, 1.0]
    );
    assert_eq!(
        result.get("b").unwrap().to_vec1::<f64>().unwrap(),
        vec![1.0, 1.0]
    );
}

#[test]
fn test_average_weights_complex() {
    let dev = Device::Cpu;

    let tensor1 = CandleTensor::new(vec![vec![1.0, 2.0], vec![2.0, 1.0]], &dev).unwrap();
    let tensor2 = CandleTensor::new(vec![vec![1.0, 2.0], vec![2.0, 1.0]], &dev).unwrap();

    let mut tensors = Vec::with_capacity(2);
    let mut map = HashMap::new();
    map.insert("a".to_string(), tensor1);
    map.insert("b".to_string(), tensor2);
    tensors.push(to_parameters(&map));

    let tensor3 = CandleTensor::new(vec![vec![2.0, 1.0], vec![1.0, 2.0]], &dev).unwrap();
    let tensor4 = CandleTensor::new(vec![vec![2.0, 1.0], vec![1.0, 2.0]], &dev).unwrap();

    let mut map = HashMap::new();
    map.insert("a".to_string(), tensor3);
    map.insert("b".to_string(), tensor4);
    tensors.push(to_parameters(&map));

    let result = to_tensors(&average_weights(&tensors).unwrap());

    assert_eq!(result.len(), 2);
    assert_eq!(
        result.get("a").unwrap().to_vec2::<f64>().unwrap(),
        vec![vec![1.5, 1.5], vec![1.5, 1.5]],
    );
    assert_eq!(
        result.get("b").unwrap().to_vec2::<f64>().unwrap(),
        vec![vec![1.5, 1.5], vec![1.5, 1.5]],
    );
}

#[test]
fn average_of_no_reply_is_empty() {
    let average = average_weights(&Vec::new()).unwrap();
    assert_eq!(average.len(), 0);
}

#[test]
fn average_keeps_shape_and_type() {
    let reply = one_entry("w", singles(&[2.0, 4.0, 6.0, 8.0], vec![2, 2]));
    let average = average_weights(&vec![reply.clone(), reply]).unwrap();
    let w = average.get(&"w".to_string()).unwrap();
    assert_eq!(w.dtype(), DType::F32);
    assert_eq!(w.shape(), &vec![2, 2]);
    assert_eq!(as_singles(w), vec![2.0, 4.0, 6.0, 8.0]);
}

#[test]
fn average_scales_by_the_number_of_replies() {
    let mut first = one_entry("a", doubles(&[2.0, 4.0], vec![2]));
    first.insert("b".to_string(), doubles(&[3.0, 3.0], vec![2]));
    let second = one_entry("a", doubles(&[4.0, 8.0], vec![2]));

    let average = average_weights(&vec![first, second]).unwrap();

    assert_eq!(average.len(), 2);
    assert_eq!(as_doubles(average.get(&"a".to_string()).unwrap()), vec![3.0, 6.0]);
    // `b` comes from one reply only, and is still halved.
    assert_eq!(as_doubles(average.get(&"b".to_string()).unwrap()), vec![1.5, 1.5]);
}

#[test]
fn average_does_not_depend_on_the_order_of_replies() {
    let w1 = one_entry("a", doubles(&[1.0, 8.0], vec![2]));
    let w2 = one_entry("a", doubles(&[2.0, 16.0], vec![2]));
    let w3 = one_entry("a", doubles(&[3.0, 24.0], vec![2]));

    let forward = average_weights(&vec![w1.clone(), w2.clone(), w3.clone()]).unwrap();
    let backward = average_weights(&vec![w3.clone(), w2.clone(), w1.clone()]).unwrap();
    let mixed = average_weights(&vec![w2, w3, w1]).unwrap();

    let name = "a".to_string();
    assert_eq!(as_doubles(forward.get(&name).unwrap()), vec![2.0, 16.0]);
    assert_eq!(as_doubles(backward.get(&name).unwrap()), vec![2.0, 16.0]);
    assert_eq!(as_doubles(mixed.get(&name).unwrap()), vec![2.0, 16.0]);
}

#[test]
fn average_refuses_tensors_of_different_shape() {
    let first = one_entry("a", doubles(&[1.0, 2.0], vec![2]));
    let second = one_entry("a", doubles(&[1.0, 2.0], vec![1, 2]));
    assert_eq!(
        average_weights(&vec![first, second]).err(),
        Some(Error::IncompatibleTensors)
    );
}

#[test]
fn average_refuses_tensors_of_different_type() {
    let first = one_entry("a", doubles(&[1.0], vec![1]));
    let second = one_entry("a", singles(&[1.0], vec![1]));
    assert_eq!(
        average_weights(&vec![first, second]).err(),
        Some(Error::IncompatibleTensors)
    );
}

#[test]
fn leg_outcome_tells_the_three_ways_apart() {
    let addr = WorkerAddr::V4 { ip: 0x7f000001, port: 4000 };
    let weights = one_entry("a", doubles(&[1.0], vec![1]));

    let replied = leg_outcome(addr, true, Some(weights.clone())).unwrap();
    assert_eq!(as_doubles(replied.get(&"a".to_string()).unwrap()), vec![1.0]);
    assert_eq!(
        leg_outcome(addr, true, None).err(),
        Some(Error::ChannelClosed { addr })
    );
    assert_eq!(
        leg_outcome(addr, false, Some(weights)).err(),
        Some(Error::SendFailed { addr })
    );
    assert_eq!(
        leg_outcome(addr, false, None).err(),
        Some(Error::SendFailed { addr })
    );
}

#[test]
fn collect_round_keeps_all_replies_in_order() {
    let legs = vec![
        Ok(one_entry("a", doubles(&[1.0], vec![1]))),
        Ok(one_entry("a", doubles(&[2.0], vec![1]))),
        Ok(one_entry("a", doubles(&[3.0], vec![1]))),
    ];
    let replies = collect_round(legs).unwrap();
    let values: Vec<Vec<f64>> = replies
        .iter()
        .map(|r| as_doubles(r.get(&"a".to_string()).unwrap()))
        .collect();
    assert_eq!(values, vec![vec![1.0], vec![2.0], vec![3.0]]);
}

#[test]
fn collect_round_fails_as_a_whole_with_the_first_failure() {
    let first = WorkerAddr::V4 { ip: 1, port: 1 };
    let second = WorkerAddr::V4 { ip: 2, port: 2 };
    let legs = vec![
        Ok(one_entry("a", doubles(&[1.0], vec![1]))),
        Err(Error::ChannelClosed { addr: first }),
        Ok(one_entry("a", doubles(&[3.0], vec![1]))),
        Err(Error::SendFailed { addr: second }),
    ];
    assert_eq!(
        collect_round(legs).err(),
        Some(Error::ChannelClosed { addr: first })
    );
}

#[test]
fn collect_round_of_no_leg_is_empty() {
    assert_eq!(collect_round(Vec::new()).unwrap().len(), 0);
}

#[test]
fn fit_runs_the_rounds_and_averages_each() {
    let job_id = JobId(7);
    let mut strategy = FedAvg::new();
    assert_eq!(strategy.phase(), FitPhase::Idle);

    assert!(matches!(
        strategy.fit(FitEvent::Start { num_rounds: 2 }),
        FitAction::CreateJob
    ));
    assert_eq!(strategy.phase(), FitPhase::CreatingJob { num_rounds: 2 });

    match strategy.fit(FitEvent::JobCreated(Ok(job_id))) {
        FitAction::FetchInitialParameters { job_id: asked } => assert_eq!(asked, job_id),
        _ => panic!("the initial weights must be fetched"),
    }

    let initial = one_entry("a", doubles(&[8.0], vec![1]));
    match strategy.fit(FitEvent::InitialWeights(Ok(initial))) {
        FitAction::ExecuteFitRound { job_id: asked, parameters } => {
            assert_eq!(asked, job_id);
            assert_eq!(as_doubles(parameters.get(&"a".to_string()).unwrap()), vec![8.0]);
        }
        _ => panic!("the first round must start"),
    }
    assert_eq!(strategy.phase(), FitPhase::Training { job_id, rounds_left: 2 });

    let replies = vec![
        one_entry("a", doubles(&[2.0], vec![1])),
        one_entry("a", doubles(&[4.0], vec![1])),
    ];
    match strategy.fit(FitEvent::RoundCompleted(Ok(replies))) {
        FitAction::ExecuteFitRound { parameters, .. } => {
            assert_eq!(as_doubles(parameters.get(&"a".to_string()).unwrap()), vec![3.0]);
        }
        _ => panic!("the second round must start"),
    }
    assert_eq!(strategy.phase(), FitPhase::Training { job_id, rounds_left: 1 });

    let replies = vec![
        one_entry("a", doubles(&[1.0], vec![1])),
        one_entry("a", doubles(&[2.0], vec![1])),
    ];
    match strategy.fit(FitEvent::RoundCompleted(Ok(replies))) {
        FitAction::Finish(Ok(parameters)) => {
            assert_eq!(as_doubles(parameters.get(&"a".to_string()).unwrap()), vec![1.5]);
        }
        _ => panic!("the run must end with the last average"),
    }
    assert_eq!(strategy.phase(), FitPhase::Finished);
}

#[test]
fn fit_with_no_round_returns_the_initial_weights() {
    let mut strategy = FedAvg::new();
    strategy.fit(FitEvent::Start { num_rounds: 0 });
    strategy.fit(FitEvent::JobCreated(Ok(JobId(1))));
    let initial = one_entry("a", doubles(&[8.0], vec![1]));
    match strategy.fit(FitEvent::InitialWeights(Ok(initial))) {
        FitAction::Finish(Ok(parameters)) => {
            assert_eq!(as_doubles(parameters.get(&"a".to_string()).unwrap()), vec![8.0]);
        }
        _ => panic!("the run must end at once"),
    }
}

#[test]
fn fit_ends_with_the_first_failure() {
    let addr = WorkerAddr::V4 { ip: 1, port: 1 };

    let mut strategy = FedAvg::new();
    strategy.fit(FitEvent::Start { num_rounds: 3 });
    match strategy.fit(FitEvent::JobCreated(Err(Error::EncodeError))) {
        FitAction::Finish(Err(e)) => assert_eq!(e, Error::EncodeError),
        _ => panic!("the run must fail"),
    }
    assert_eq!(strategy.phase(), FitPhase::Finished);

    let mut strategy = FedAvg::new();
    strategy.fit(FitEvent::Start { num_rounds: 3 });
    strategy.fit(FitEvent::JobCreated(Ok(JobId(1))));
    let failure = Error::WorkerUnavailable { job_id: JobId(1) };
    match strategy.fit(FitEvent::InitialWeights(Err(failure))) {
        FitAction::Finish(Err(e)) => assert_eq!(e, failure),
        _ => panic!("the run must fail"),
    }

    let mut strategy = FedAvg::new();
    strategy.fit(FitEvent::Start { num_rounds: 3 });
    strategy.fit(FitEvent::JobCreated(Ok(JobId(1))));
    strategy.fit(FitEvent::InitialWeights(Ok(one_entry("a", doubles(&[8.0], vec![1])))));
    match strategy.fit(FitEvent::RoundCompleted(Err(Error::ChannelClosed { addr }))) {
        FitAction::Finish(Err(e)) => assert_eq!(e, Error::ChannelClosed { addr }),
        _ => panic!("the run must fail"),
    }
    assert_eq!(strategy.phase(), FitPhase::Finished);
}

#[test]
fn fit_ends_when_the_replies_cannot_be_averaged() {
    let mut strategy = FedAvg::new();
    strategy.fit(FitEvent::Start { num_rounds: 3 });
    strategy.fit(FitEvent::JobCreated(Ok(JobId(1))));
    strategy.fit(FitEvent::InitialWeights(Ok(one_entry("a", doubles(&[8.0], vec![1])))));
    let replies = vec![
        one_entry("a", doubles(&[1.0], vec![1])),
        one_entry("a", doubles(&[1.0, 2.0], vec![2])),
    ];
    match strategy.fit(FitEvent::RoundCompleted(Ok(replies))) {
        FitAction::Finish(Err(e)) => assert_eq!(e, Error::IncompatibleTensors),
        _ => panic!("the run must fail"),
    }
}

#[test]
fn fit_refuses_an_event_out_of_turn() {
    let mut strategy = FedAvg::new();
    match strategy.fit(FitEvent::JobCreated(Ok(JobId(1)))) {
        FitAction::Finish(Err(e)) => assert_eq!(e, Error::UnexpectedEvent),
        _ => panic!("the run must fail"),
    }
    assert_eq!(strategy.phase(), FitPhase::Finished);
    match strategy.fit(FitEvent::Start { num_rounds: 1 }) {
        FitAction::Finish(Err(e)) => assert_eq!(e, Error::UnexpectedEvent),
        _ => panic!("a finished run cannot start again"),
    }
}
