use fractals::fractal::{Fractal, FractalConfig};
use fractals::plane::{Coord, Point};
use fractals::settings::Settings;

fn sample_settings() -> Settings {
    Settings {
        program_name: String::from("fractals"),
        program_ver: String::from("0.1.0"),
        program_devs: vec![String::from("dev")],
        program_web: String::from("https://example.org"),
        fractals_folder: String::from("out"),
        fractal_file: String::from("fractal.toml"),
        hist_plot_log: false,
    }
}

fn coord(value: f64) -> Coord {
    Coord { bits: value.to_bits() }
}

fn value_of(coord: Coord) -> f64 {
    f64::from_bits(coord.bits)
}

#[test]
fn init_gives_a_blank_session() {
    let fractal = Fractal::init(sample_settings());
    assert_eq!(fractal.settings.program_name, "fractals");
    assert_eq!(fractal.settings.fractals_folder, "out");
    assert_eq!(fractal.rows, 0);
    assert_eq!(fractal.cols, 0);
    assert_eq!(value_of(fractal.mid_pt.re), 0.0);
    assert_eq!(value_of(fractal.mid_pt.im), 0.0);
    assert_eq!(value_of(fractal.pt_div), 0.0);
    assert_eq!(fractal.max_its, 0);
    assert_eq!(value_of(fractal.left_lim), 0.0);
    assert_eq!(value_of(fractal.top_lim), 0.0);
    assert!(fractal.escape_its.is_empty());
    assert_eq!(fractal.pt_lt, Point { re: coord(0.0), im: coord(0.0) });
    assert!(fractal.col_palete.is_empty());
    assert!(fractal.is_well_formed());
}

#[test]
fn init_fractal_image_lays_out_a_zero_grid() {
    let mut fractal = Fractal::init(sample_settings());
    fractal.init_fractal_image(3, 4, coord(-2.0), coord(1.5));
    assert_eq!(fractal.rows, 3);
    assert_eq!(fractal.cols, 4);
    assert_eq!(fractal.escape_its, vec![vec![0u32; 4]; 3]);
    assert_eq!(value_of(fractal.left_lim), -2.0);
    assert_eq!(value_of(fractal.top_lim), 1.5);
    assert_eq!(fractal.pt_lt, Point { re: coord(-2.0), im: coord(1.5) });
    assert!(fractal.is_well_formed());
}

#[test]
fn init_fractal_image_replaces_an_earlier_grid() {
    let mut fractal = Fractal::init(sample_settings());
    fractal.max_its = 9;
    fractal.init_fractal_image(2, 2, coord(0.0), coord(0.0));
    fractal.cal_row_divergence(0, &vec![4, 5]);
    fractal.init_fractal_image(1, 3, coord(0.5), coord(0.25));
    assert_eq!(fractal.escape_its, vec![vec![0u32; 3]]);
    assert_eq!(fractal.max_its, 9);
}

#[test]
fn init_fractal_image_with_no_rows_or_no_columns() {
    let mut fractal = Fractal::init(sample_settings());
    fractal.init_fractal_image(0, 5, coord(0.0), coord(0.0));
    assert!(fractal.escape_its.is_empty());
    assert!(fractal.is_well_formed());
    fractal.init_fractal_image(2, 0, coord(0.0), coord(0.0));
    assert_eq!(fractal.escape_its, vec![Vec::<u32>::new(), Vec::<u32>::new()]);
    assert!(fractal.is_well_formed());
}

#[test]
fn two_by_two_grid_about_the_origin() {
    // rows = 2, cols = 2, centre 0 + 0i, spacing 1.
    let rows = 2u32;
    let cols = 2u32;
    let (mid_re, mid_im, pt_div) = (0.0f64, 0.0f64, 1.0f64);
    let left_lim = mid_re - (cols as f64 / 2.0) * pt_div;
    let top_lim = mid_im + (rows as f64 / 2.0) * pt_div;
    assert_eq!(left_lim, -1.0);
    assert_eq!(top_lim, 1.0);

    let mut fractal = Fractal::init(sample_settings());
    fractal.mid_pt = Point { re: coord(mid_re), im: coord(mid_im) };
    fractal.pt_div = coord(pt_div);
    fractal.init_fractal_image(rows, cols, coord(left_lim), coord(top_lim));
    assert_eq!(value_of(fractal.left_lim), -1.0);
    assert_eq!(value_of(fractal.top_lim), 1.0);
    assert_eq!(value_of(fractal.pt_lt.re), -1.0);
    assert_eq!(value_of(fractal.pt_lt.im), 1.0);
    assert_eq!(fractal.escape_its, vec![vec![0u32, 0], vec![0, 0]]);
}

#[test]
fn cal_row_divergence_stores_settled_counts() {
    let mut fractal = Fractal::init(sample_settings());
    fractal.max_its = 100;
    fractal.init_fractal_image(2, 3, coord(0.0), coord(0.0));
    fractal.cal_row_divergence(1, &vec![0, 57, 4000]);
    assert_eq!(fractal.escape_its, vec![vec![0, 0, 0], vec![1, 57, 100]]);
    fractal.cal_row_divergence(0, &vec![100, 1, 2]);
    assert_eq!(fractal.escape_its, vec![vec![100, 1, 2], vec![1, 57, 100]]);
    assert!(fractal.is_well_formed());
}

#[test]
fn cal_row_divergence_keeps_the_rest_of_the_session() {
    let mut fractal = Fractal::init(sample_settings());
    fractal.max_its = 10;
    fractal.mid_pt = Point { re: coord(0.25), im: coord(-0.5) };
    fractal.pt_div = coord(0.125);
    fractal.col_palete = vec![(1, (1, 2, 3))];
    fractal.init_fractal_image(1, 2, coord(-1.0), coord(1.0));
    fractal.cal_row_divergence(0, &vec![3, 30]);
    assert_eq!(fractal.escape_its, vec![vec![3, 10]]);
    assert_eq!(fractal.rows, 1);
    assert_eq!(fractal.cols, 2);
    assert_eq!(fractal.max_its, 10);
    assert_eq!(value_of(fractal.mid_pt.re), 0.25);
    assert_eq!(value_of(fractal.pt_div), 0.125);
    assert_eq!(value_of(fractal.left_lim), -1.0);
    assert_eq!(fractal.col_palete, vec![(1, (1, 2, 3))]);
    assert_eq!(fractal.settings.fractal_file, "fractal.toml");
}

#[test]
fn to_config_takes_a_snapshot() {
    let mut fractal = Fractal::init(sample_settings());
    fractal.max_its = 50;
    fractal.mid_pt = Point { re: coord(-0.75), im: coord(0.1) };
    fractal.pt_div = coord(0.005);
    fractal.col_palete = vec![(1, (0, 0, 0)), (50, (255, 255, 255))];
    fractal.init_fractal_image(2, 2, coord(-0.755), coord(0.105));
    fractal.cal_row_divergence(0, &vec![7, 8]);
    let config = fractal.to_config();
    assert_eq!(config.rows, 2);
    assert_eq!(config.cols, 2);
    assert_eq!(value_of(config.mid_pt.0), -0.75);
    assert_eq!(value_of(config.mid_pt.1), 0.1);
    assert_eq!(value_of(config.pt_div), 0.005);
    assert_eq!(config.max_its, 50);
    assert_eq!(config.col_palete, vec![(1, (0, 0, 0)), (50, (255, 255, 255))]);
    assert_eq!(config.escape_its, vec![vec![7, 8], vec![0, 0]]);
    // The session itself is untouched.
    assert_eq!(fractal.escape_its, vec![vec![7, 8], vec![0, 0]]);
}

#[test]
fn from_config_replaces_the_session() {
    let mut fractal = Fractal::init(sample_settings());
    fractal.init_fractal_image(1, 1, coord(-3.0), coord(3.0));
    let config = FractalConfig {
        rows: 2,
        cols: 3,
        mid_pt: (coord(0.5), coord(-0.5)),
        pt_div: coord(0.01),
        max_its: 200,
        col_palete: vec![(1, (9, 9, 9))],
        escape_its: vec![vec![1, 2, 3], vec![4, 5, 6]],
    };
    fractal.from_config(config);
    assert_eq!(fractal.rows, 2);
    assert_eq!(fractal.cols, 3);
    assert_eq!(fractal.mid_pt, Point { re: coord(0.5), im: coord(-0.5) });
    assert_eq!(value_of(fractal.pt_div), 0.01);
    assert_eq!(fractal.max_its, 200);
    assert_eq!(fractal.col_palete, vec![(1, (9, 9, 9))]);
    assert_eq!(fractal.escape_its, vec![vec![1, 2, 3], vec![4, 5, 6]]);
    // The limits are no part of a snapshot.
    assert_eq!(value_of(fractal.left_lim), -3.0);
    assert_eq!(value_of(fractal.top_lim), 3.0);
    assert_eq!(fractal.settings.program_ver, "0.1.0");
    assert!(fractal.is_well_formed());
}

#[test]
fn snapshot_round_trip_is_bit_identical() {
    let mut saved = Fractal::init(sample_settings());
    saved.max_its = 1000;
    saved.mid_pt = Point { re: coord(-0.743643887037151), im: coord(0.131825904205330) };
    saved.pt_div = coord(1.0e-13);
    saved.col_palete = vec![(1, (0, 0, 64)), (500, (255, 128, 0)), (1000, (0, 0, 0))];
    saved.init_fractal_image(2, 2, coord(-0.7436438870372), coord(0.1318259042054));
    saved.cal_row_divergence(1, &vec![12, 999]);

    let mut session = Fractal::init(sample_settings());
    session.from_config(saved.to_config());
    assert_eq!(session.rows, saved.rows);
    assert_eq!(session.cols, saved.cols);
    assert_eq!(session.mid_pt.re.bits, (-0.743643887037151f64).to_bits());
    assert_eq!(session.mid_pt.im.bits, (0.131825904205330f64).to_bits());
    assert_eq!(session.pt_div.bits, (1.0e-13f64).to_bits());
    assert_eq!(session.max_its, 1000);
    assert_eq!(session.col_palete, saved.col_palete);
    assert_eq!(session.escape_its, vec![vec![0, 0], vec![12, 999]]);
}

#[test]
fn round_trip_keeps_values_that_are_no_numbers() {
    let mut saved = Fractal::init(sample_settings());
    saved.mid_pt = Point { re: Coord { bits: f64::NAN.to_bits() | 1 }, im: coord(-0.0) };
    saved.pt_div = coord(f64::INFINITY);
    let mut session = Fractal::init(sample_settings());
    session.from_config(saved.to_config());
    assert_eq!(session.mid_pt, saved.mid_pt);
    assert_eq!(session.mid_pt.im.bits, 0x8000_0000_0000_0000);
    assert_eq!(session.pt_div, saved.pt_div);
}

#[test]
fn a_loaded_grid_of_the_wrong_shape_is_reported() {
    let mut fractal = Fractal::init(sample_settings());
    let config = FractalConfig {
        rows: 2,
        cols: 2,
        mid_pt: (coord(0.0), coord(0.0)),
        pt_div: coord(1.0),
        max_its: 10,
        col_palete: Vec::new(),
        escape_its: vec![vec![1, 2], vec![3]],
    };
    fractal.from_config(config);
    assert!(!fractal.is_well_formed());
    fractal.escape_its = vec![vec![1, 2]];
    assert!(!fractal.is_well_formed());
    fractal.escape_its = vec![vec![1, 2], vec![3, 4]];
    assert!(fractal.is_well_formed());
}

#[test]
fn load_config_replaces_the_session_and_places_it() {
    let mut fractal = Fractal::init(sample_settings());
    fractal.init_fractal_image(1, 1, coord(-3.0), coord(3.0));
    let config = FractalConfig {
        rows: 2,
        cols: 2,
        mid_pt: (coord(0.0), coord(0.0)),
        pt_div: coord(1.0),
        max_its: 20,
        col_palete: vec![(1, (9, 9, 9)), (20, (0, 0, 0))],
        escape_its: vec![vec![1, 2], vec![3, 4]],
    };
    fractal.load_config(config, coord(-1.0), coord(1.0));
    assert_eq!(fractal.rows, 2);
    assert_eq!(fractal.cols, 2);
    assert_eq!(fractal.mid_pt, Point { re: coord(0.0), im: coord(0.0) });
    assert_eq!(value_of(fractal.pt_div), 1.0);
    assert_eq!(fractal.max_its, 20);
    assert_eq!(fractal.col_palete, vec![(1, (9, 9, 9)), (20, (0, 0, 0))]);
    assert_eq!(fractal.escape_its, vec![vec![1, 2], vec![3, 4]]);
    assert_eq!(value_of(fractal.left_lim), -1.0);
    assert_eq!(value_of(fractal.top_lim), 1.0);
    assert_eq!(fractal.pt_lt, Point { re: coord(-1.0), im: coord(1.0) });
    assert_eq!(fractal.settings.fractals_folder, "out");
    assert!(fractal.is_well_formed());
}

#[test]
fn set_limits_moves_the_top_left_sample_only() {
    let mut fractal = Fractal::init(sample_settings());
    fractal.max_its = 5;
    fractal.init_fractal_image(1, 2, coord(0.0), coord(0.0));
    fractal.cal_row_divergence(0, &vec![2, 3]);
    fractal.set_limits(coord(-0.5), coord(0.25));
    assert_eq!(value_of(fractal.left_lim), -0.5);
    assert_eq!(value_of(fractal.top_lim), 0.25);
    assert_eq!(fractal.pt_lt, Point { re: coord(-0.5), im: coord(0.25) });
    assert_eq!(fractal.escape_its, vec![vec![2, 3]]);
    assert_eq!(fractal.rows, 1);
    assert_eq!(fractal.cols, 2);
    assert_eq!(fractal.max_its, 5);
}
