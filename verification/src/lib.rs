//! Readings of Rockchip boards: the load, the clocks and the temperatures of
//! processor, GPU, NPU and graphics accelerator, the disks and the network, and
//! what the board and its software are.
//!
//! The files that tell all this are read elsewhere. Here stands what is made of
//! their contents: which files are to be read, which of them count, and what
//! their texts say.

pub mod binary;
pub mod board;
pub mod cpu_architecture;
pub mod cpu_frequency;
pub mod disk;
pub mod frequency;
pub mod gpu;
pub mod gpu_source;
pub mod hwmon;
pub mod network;
pub mod npu;
pub mod number;
pub mod once;
pub mod order;
pub mod outside;
pub mod pattern;
pub mod rga;
pub mod text;
pub mod thermal;

pub use binary::{extract_version_from_binary, get_librkllmrt_version, get_librknnrt_version};
pub use board::{get_board_name, get_rk_model};
pub use cpu_architecture::get_cpu_architecture;
pub use cpu_frequency::{get_cpu_freq_ranges, get_cpu_frequencies};
pub use disk::get_disk_total;
pub use gpu::{get_gpu_frequency, get_gpu_usage, parse_dvfs_busy_idle};
pub use gpu_source::{gpu_usage_source, is_gpu_device_name};
pub use hwmon::get_hwmon_sensors;
pub use network::get_network_adapters;
pub use npu::{get_npu_driver_version, get_npu_frequency, get_npu_load};
pub use rga::{get_rga_load, get_rga_version};
pub use thermal::{get_gpu_temperature, get_thermal_cached, get_thermal_zone_paths};
