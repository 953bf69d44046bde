[package]
name = "bevy_terrain"
version = "0.1.0"
edition = "2021"
publish = false

[dependencies]
bevy = { version = "=0.19.1", default-features = false, features = ["std"] }
bytemuck = { version = "=1.25.2", features = ["extern_crate_alloc"] }
ndarray = "=0.17.2"
serde = { version = "=1.0.229", features = ["derive"] }
itertools = "=0.15.0"
async-channel = "=2.5.0"
indexmap = "=2.14.2"

[dev-dependencies]
half = "=2.7.1"
