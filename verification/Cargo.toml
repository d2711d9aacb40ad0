[package]
name = "stones"
version = "0.1.0"
edition = "2021"
publish = false

[dependencies]
bevy = { version = "=0.15.3", default-features = false, features = ["bevy_asset", "bevy_color", "bevy_core_pipeline", "bevy_gizmos", "bevy_pbr", "bevy_picking", "bevy_render", "bevy_scene", "bevy_state", "bevy_text", "bevy_ui", "bevy_window", "multi_threaded"] }
avian3d = { version = "=0.2.1", default-features = false, features = ["3d", "f32", "parry-f32", "collider-from-mesh", "bevy_scene", "bevy_picking", "debug-plugin"] }
bevy_asset_loader = { version = "=0.22.0", features = ["standard_dynamic_assets"] }
iyes_progress = "=0.13.1"
thiserror = "=2.0.21"
tracing = "=0.1.44"
rmp-serde = "=1.3.1"
