//! How a training run is driven: federated averaging.

pub mod fed_avg;
