[package]
name = "dataflow_ops"
version = "0.1.0"
edition = "2021"
publish = false

[dependencies]
timely = "*"
timely_communication = "*"
differential-dataflow = "*"
abomonation = "*"
abomonation_derive = "*"
rand = "*"
