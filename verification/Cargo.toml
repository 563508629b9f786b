[package]
name = "slice_volume"
version = "0.1.0"
edition = "2021"
publish = false

[dependencies]
dicom-object = "=0.10.0"
dicom-pixeldata = "=0.10.0"
dicom-transfer-syntax-registry = { version = "=0.10.0", default-features = false }
rayon = "=1.12.0"
three-d = { version = "=0.19.0", features = ["egui-gui"] }
tokio = { version = "=1.54.1", features = ["macros", "rt-multi-thread"] }

[dev-dependencies]
dicom-core = "=0.10.0"
dicom-dictionary-std = "=0.10.0"
