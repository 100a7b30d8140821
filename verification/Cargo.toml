[package]
name = "engine"
version = "0.1.0"
edition = "2021"
publish = false

[dependencies]
hashbrown = "0.15"
tinybitset = "*"
bimap = "0.6"
bytemuck = { version = "1", features = ["derive"] }
crossbeam = "0.8"
egui = { version = "*", default-features = false }
gltf = "1"
image = { version = "0.25", default-features = false, features = ["png"] }
itertools = "*"
laminar = "0.5"
nalgebra = "*"
nalgebra-glm = "*"
noise = "0.9"
postcard = { version = "1", features = ["alloc"] }
rayon = "1"
serde = { version = "1", features = ["derive"] }
serde-big-array = "0.5"
serde_json = "1"
shipyard = "*"
splines = "*"
strck = "*"
strum = { version = "*", features = ["derive"] }
thiserror = "*"
tracing = "0.1"
wgpu = "*"
winit = "*"
