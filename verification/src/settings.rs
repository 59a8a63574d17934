//! Program-wide settings handed to a session when it starts.

use vstd::prelude::*;

verus! {

/// Descriptor of the running program and of where its files live.
#[derive(Debug, Clone)]
pub struct Settings {
    pub program_name: String,
    pub program_ver: String,
    pub program_devs: Vec<String>,
    pub program_web: String,
    pub fractals_folder: String,
    pub fractal_file: String,
    pub hist_plot_log: bool,
}

} // verus!
