use rust_gauge::config::AppConfig;
use rust_gauge::metrics::{MetricKind, MetricSample, MetricSnapshot, MetricStatus};
use rust_gauge::render::{
    cell_layout, draw_cell_border, draw_empty_state, draw_horizontal_metric_cells, draw_metric_cell,
    draw_metric_grid, format_sample, hex_color_is_sliceable, icon_plan, metric_color, metric_label,
    paint_icon, parse_hex_color, tooltip_text, with_alpha, Canvas, CellFill, CellLayout,
    HexColorError, PlannedCell, Rect, Rgba,
};

const RED: Rgba = Rgba { r: 255, g: 0, b: 0, a: 255 };

fn pixel(c: &Canvas, x: u32, y: u32) -> [u8; 4] {
    let o = ((y * c.width + x) * 4) as usize;
    [c.pixels[o], c.pixels[o + 1], c.pixels[o + 2], c.pixels[o + 3]]
}

fn sample(kind: MetricKind, label: &'static str, value: Option<f32>) -> MetricSample {
    MetricSample {
        kind,
        label,
        value_percent: value.map(f32::to_bits),
        display_value: None,
        status: MetricStatus::Available,
    }
}

fn reference_parse(input: &str) -> Result<Rgba, HexColorError> {
    let value = input.trim().trim_start_matches('#');
    if value.len() != 6 {
        return Err(HexColorError::Length);
    }
    let part = |a: usize, b: usize| u8::from_str_radix(&value[a..b], 16).map_err(|_| HexColorError::Digit);
    let r = part(0, 2)?;
    let g = part(2, 4)?;
    let b = part(4, 6)?;
    Ok(Rgba { r, g, b, a: 255 })
}

#[test]
fn canvas_new_is_transparent() {
    let c = Canvas::new(4, 3);
    assert_eq!(c.pixels.len(), 48);
    assert!(c.pixels.iter().all(|b| *b == 0));
}

#[test]
fn fill_rect_paints_inside_and_clips() {
    let mut c = Canvas::new(4, 4);
    c.fill_rect(2, 1, 5, 2, RED);
    for y in 0..4 {
        for x in 0..4 {
            let inside = x >= 2 && (1..3).contains(&y);
            assert_eq!(pixel(&c, x, y), if inside { [255, 0, 0, 255] } else { [0, 0, 0, 0] }, "({x},{y})");
        }
    }
}

#[test]
fn fill_rect_twice_is_fill_rect_once() {
    let mut once = Canvas::new(5, 5);
    once.fill_rect(1, 1, 3, 2, RED);
    let mut twice = Canvas::new(5, 5);
    twice.fill_rect(1, 1, 3, 2, RED);
    twice.fill_rect(1, 1, 3, 2, RED);
    assert_eq!(once.pixels, twice.pixels);
}

#[test]
fn empty_state_draws_three_bars() {
    let mut c = Canvas::new(32, 32);
    draw_empty_state(&mut c, RED);
    let painted: Vec<u32> = (0..32).filter(|y| pixel(&c, 16, *y) == [255, 0, 0, 255]).collect();
    assert_eq!(painted, vec![8, 9, 10, 11, 16, 17, 18, 19, 20, 21, 22, 23]);
    assert_eq!(pixel(&c, 7, 8), [0, 0, 0, 0]);
    assert_eq!(pixel(&c, 8, 8), [255, 0, 0, 255]);
    assert_eq!(pixel(&c, 23, 8), [255, 0, 0, 255]);
    assert_eq!(pixel(&c, 24, 8), [0, 0, 0, 0]);
}

#[test]
fn cell_border_is_one_pixel_frame() {
    let mut c = Canvas::new(6, 6);
    draw_cell_border(&mut c, 1, 1, 4, 4, RED);
    for y in 0..6 {
        for x in 0..6 {
            let frame = (1..5).contains(&x) && (1..5).contains(&y) && (x == 1 || x == 4 || y == 1 || y == 4);
            assert_eq!(pixel(&c, x, y)[0] == 255, frame, "({x},{y})");
        }
    }
}

#[test]
fn metric_cell_fills_from_the_bottom() {
    let track = Rgba { r: 1, g: 2, b: 3, a: 255 };
    let mut c = Canvas::new(8, 10);
    let rect = Rect { x: 1, y: 1, width: 5, height: 8 };
    draw_metric_cell(&mut c, rect, CellFill { height: 3, alpha: 200 }, RED, track);
    // frame
    assert_eq!(pixel(&c, 1, 1), [1, 2, 3, 220]);
    assert_eq!(pixel(&c, 3, 8), [1, 2, 3, 220]);
    // fill rows 5..8 (three rows above the bottom frame row 8)
    assert_eq!(pixel(&c, 2, 7), [255, 0, 0, 200]);
    assert_eq!(pixel(&c, 2, 5), [255, 0, 0, 200]);
    assert_eq!(pixel(&c, 4, 6), [255, 0, 0, 200]);
    assert_eq!(pixel(&c, 2, 4), [1, 2, 3, 110]);
    // right frame column stays the frame
    assert_eq!(pixel(&c, 5, 6), [1, 2, 3, 220]);
}

#[test]
fn metric_cell_without_fill() {
    let track = Rgba { r: 9, g: 9, b: 9, a: 255 };
    let mut c = Canvas::new(6, 6);
    draw_metric_cell(&mut c, Rect { x: 0, y: 0, width: 6, height: 6 }, CellFill { height: 0, alpha: 255 }, RED, track);
    assert_eq!(pixel(&c, 2, 4), [9, 9, 9, 110]);
}

#[test]
fn layout_of_four_cells_in_32_pixels() {
    assert_eq!(cell_layout(32, 4), CellLayout { margin: 3, cell_width: 5, cell_height: 26, gap: 2 });
    assert_eq!(cell_layout(64, 1), CellLayout { margin: 6, cell_width: 52, cell_height: 52, gap: 2 });
    assert_eq!(cell_layout(18, 4), CellLayout { margin: 2, cell_width: 3, cell_height: 14, gap: 2 });
    assert_eq!(cell_layout(16, 4), CellLayout { margin: 2, cell_width: 3, cell_height: 12, gap: 1 });
    assert_eq!(cell_layout(17, 4), CellLayout { margin: 2, cell_width: 3, cell_height: 13, gap: 1 });
    assert_eq!(cell_layout(16, 0), CellLayout { margin: 2, cell_width: 12, cell_height: 12, gap: 2 });
}

#[test]
fn horizontal_cells_are_spaced_by_the_gap() {
    let track = Rgba { r: 7, g: 7, b: 7, a: 255 };
    let mut c = Canvas::new(32, 32);
    let cells = vec![
        PlannedCell { kind: MetricKind::Cpu, value_percent: 0 },
        PlannedCell { kind: MetricKind::Memory, value_percent: 0 },
    ];
    let fills = vec![CellFill { height: 4, alpha: 255 }, CellFill { height: 0, alpha: 255 }];
    draw_horizontal_metric_cells(&mut c, &cells, &fills, track);
    // margin 3, available 32 - 6 - 2 = 24, cell width 12: cells at x = 3 and x = 17
    assert_eq!(pixel(&c, 3, 3), [7, 7, 7, 220]);
    assert_eq!(pixel(&c, 14, 3), [7, 7, 7, 220]);
    assert_eq!(pixel(&c, 15, 10), [0, 0, 0, 0]);
    assert_eq!(pixel(&c, 17, 3), [7, 7, 7, 220]);
    assert_eq!(pixel(&c, 4, 27), [0, 210, 255, 255]);
    assert_eq!(pixel(&c, 18, 27), [7, 7, 7, 110]);
}

#[test]
fn metric_colors_and_labels() {
    assert_eq!(metric_color(MetricKind::Cpu), Rgba { r: 0, g: 210, b: 255, a: 255 });
    assert_eq!(metric_color(MetricKind::Memory), Rgba { r: 37, g: 99, b: 235, a: 255 });
    assert_eq!(metric_color(MetricKind::Gpu), Rgba { r: 211, g: 92, b: 255, a: 255 });
    assert_eq!(metric_color(MetricKind::Npu), Rgba { r: 182, g: 92, b: 255, a: 255 });
    assert_eq!(metric_color(MetricKind::Network), Rgba { r: 251, g: 191, b: 36, a: 255 });
    assert_eq!(metric_label(MetricKind::Cpu, "x"), "CPU");
    assert_eq!(metric_label(MetricKind::Memory, "x"), "MEM");
    assert_eq!(metric_label(MetricKind::Gpu, "x"), "GPU");
    assert_eq!(metric_label(MetricKind::Npu, "x"), "NPU");
    assert_eq!(metric_label(MetricKind::Network, "x"), "NET");
    assert_eq!(with_alpha(RED, 7), Rgba { r: 255, g: 0, b: 0, a: 7 });
}

#[test]
fn parse_hex_color_examples() {
    assert_eq!(parse_hex_color("#2b2f36"), Ok(Rgba { r: 0x2b, g: 0x2f, b: 0x36, a: 255 }));
    assert_eq!(parse_hex_color("  ##FFdd57\n"), Ok(Rgba { r: 0xff, g: 0xdd, b: 0x57, a: 255 }));
    assert_eq!(parse_hex_color("+f+f+f"), Ok(Rgba { r: 15, g: 15, b: 15, a: 255 }));
    assert_eq!(parse_hex_color("#12345"), Err(HexColorError::Length));
    assert_eq!(parse_hex_color("# 123456"), Err(HexColorError::Length));
    assert_eq!(parse_hex_color("#12345g"), Err(HexColorError::Digit));
    assert_eq!(parse_hex_color("-1-1-1"), Err(HexColorError::Digit));
    assert_eq!(parse_hex_color("éé12"), Err(HexColorError::Digit));
    assert!(!hex_color_is_sliceable("a€bc"));
    assert!(hex_color_is_sliceable("éé12"));
}

#[test]
fn parse_hex_color_matches_std_parsing() {
    let inputs = [
        "#000000", "ffffff", "#FfFfFf", " #123abc ", "#12", "#1234567", "", "#", "######abcdef",
        "\u{3000}#a1b2c3\t", "+1+2+3", "++1234", "12+345", "#-12345", "1 2345", "ab cd ef",
        "é1234", "éé12", "12éé", "1é234", "ééé", "abcdé",
    ];
    for input in inputs {
        let value = input.trim().trim_start_matches('#');
        let sliceable = value.len() != 6 || (value.is_char_boundary(2) && value.is_char_boundary(4));
        assert_eq!(hex_color_is_sliceable(input), sliceable, "{input:?}");
        if sliceable {
            assert_eq!(parse_hex_color(input), reference_parse(input), "{input:?}");
        }
    }
}

#[test]
fn format_sample_cases() {
    assert_eq!(format_sample(&sample(MetricKind::Cpu, "CPU", Some(42.4))), "CPU 42%");
    assert_eq!(format_sample(&sample(MetricKind::Memory, "MEM", Some(150.0))), "MEM 100%");
    assert_eq!(format_sample(&sample(MetricKind::Memory, "MEM", None)), "MEM unknown");
    let unsupported = MetricSample {
        kind: MetricKind::Gpu,
        label: "GPU",
        value_percent: None,
        display_value: None,
        status: MetricStatus::Unsupported,
    };
    assert_eq!(format_sample(&unsupported), "GPU unsupported");
    let net = MetricSample {
        kind: MetricKind::Network,
        label: "NET",
        value_percent: Some(12.0f32.to_bits()),
        display_value: Some("1.5 KB/s".to_string()),
        status: MetricStatus::Available,
    };
    assert_eq!(format_sample(&net), "NET 1.5 KB/s");
}

#[test]
fn tooltip_two_samples_per_line() {
    let config = AppConfig::default();
    let empty = MetricSnapshot { samples: vec![] };
    assert_eq!(tooltip_text(&empty, &config), "RustGauge\nNo metrics enabled");
    let snapshot = MetricSnapshot {
        samples: vec![
            sample(MetricKind::Cpu, "CPU", Some(10.0)),
            sample(MetricKind::Memory, "MEM", Some(55.5)),
            sample(MetricKind::Gpu, "GPU", Some(3.0)),
        ],
    };
    assert_eq!(tooltip_text(&snapshot, &config), "RustGauge\nCPU 10% | MEM 56%\nGPU 3%");
    let four = MetricSnapshot {
        samples: vec![
            sample(MetricKind::Cpu, "CPU", Some(1.0)),
            sample(MetricKind::Memory, "MEM", Some(2.0)),
            sample(MetricKind::Gpu, "GPU", Some(3.0)),
            sample(MetricKind::Npu, "NPU", Some(4.0)),
        ],
    };
    assert_eq!(tooltip_text(&four, &config), "RustGauge\nCPU 1% | MEM 2%\nGPU 3% | NPU 4%");
}

#[test]
fn grid_orders_cells_and_skips_network() {
    let samples = vec![
        sample(MetricKind::Network, "NET", Some(80.0)),
        sample(MetricKind::Npu, "NPU", Some(5.0)),
        sample(MetricKind::Memory, "MEM", None),
        sample(MetricKind::Cpu, "CPU", Some(120.0)),
        sample(MetricKind::Memory, "MEM", Some(30.0)),
        sample(MetricKind::Cpu, "CPU", Some(1.0)),
    ];
    let cells = draw_metric_grid(&samples);
    assert_eq!(
        cells,
        vec![
            PlannedCell { kind: MetricKind::Cpu, value_percent: 100.0f32.to_bits() },
            PlannedCell { kind: MetricKind::Memory, value_percent: 30.0f32.to_bits() },
            PlannedCell { kind: MetricKind::Npu, value_percent: 5.0f32.to_bits() },
        ]
    );
}

#[test]
fn icon_plan_clamps_size_and_rejects_bad_track_color() {
    let mut config = AppConfig::default();
    let snapshot = MetricSnapshot { samples: vec![sample(MetricKind::Cpu, "CPU", Some(50.0))] };
    config.icon.size = 100;
    let plan = icon_plan(&snapshot, &config).unwrap();
    assert_eq!(plan.size, 64);
    assert_eq!(plan.track_color, Rgba { r: 0x2b, g: 0x2f, b: 0x36, a: 255 });
    assert_eq!(plan.cells.len(), 1);
    config.icon.size = 3;
    assert_eq!(icon_plan(&snapshot, &config).unwrap().size, 16);
    config.icon.track_color = "nope".to_string();
    assert_eq!(icon_plan(&snapshot, &config).err(), Some(HexColorError::Length));
}

#[test]
fn paint_icon_of_empty_snapshot_is_the_empty_state() {
    let config = AppConfig::default();
    let plan = icon_plan(&MetricSnapshot { samples: vec![] }, &config).unwrap();
    let pixels = paint_icon(&plan, &vec![]);
    let mut expected = Canvas::new(32, 32);
    draw_empty_state(&mut expected, plan.track_color);
    assert_eq!(pixels, expected.pixels);
}

#[test]
fn paint_icon_draws_cells() {
    let config = AppConfig::default();
    let snapshot = MetricSnapshot { samples: vec![sample(MetricKind::Cpu, "CPU", Some(50.0))] };
    let plan = icon_plan(&snapshot, &config).unwrap();
    let fills = vec![CellFill { height: 12, alpha: 198 }];
    let pixels = paint_icon(&plan, &fills);
    assert_eq!(pixels.len(), 32 * 32 * 4);
    let mut expected = Canvas::new(32, 32);
    draw_horizontal_metric_cells(&mut expected, &plan.cells, &fills, plan.track_color);
    assert_eq!(pixels, expected.pixels);
}

#[test]
fn every_cell_starts_inside_small_icons() {
    for size in 16..=64u32 {
        for count in 1..=4u32 {
            let layout = cell_layout(size, count);
            let last = layout.margin + (count - 1) * (layout.cell_width + layout.gap);
            assert!(last < size, "size {size}, {count} cells");
        }
    }
}

#[test]
fn sixteen_pixel_icon_shows_all_four_metrics() {
    let track = Rgba { r: 7, g: 7, b: 7, a: 255 };
    let mut c = Canvas::new(16, 16);
    let cells = vec![
        PlannedCell { kind: MetricKind::Cpu, value_percent: 50.0f32.to_bits() },
        PlannedCell { kind: MetricKind::Memory, value_percent: 50.0f32.to_bits() },
        PlannedCell { kind: MetricKind::Gpu, value_percent: 50.0f32.to_bits() },
        PlannedCell { kind: MetricKind::Npu, value_percent: 50.0f32.to_bits() },
    ];
    let fills = vec![CellFill { height: 5, alpha: 198 }; 4];
    draw_horizontal_metric_cells(&mut c, &cells, &fills, track);
    // cells at x = 2, 6, 10, 14; the middle column of each holds its fill colour
    assert_eq!(pixel(&c, 3, 12), [0, 210, 255, 198]);
    assert_eq!(pixel(&c, 7, 12), [37, 99, 235, 198]);
    assert_eq!(pixel(&c, 11, 12), [211, 92, 255, 198]);
    assert_eq!(pixel(&c, 15, 12), [182, 92, 255, 198]);
}

#[test]
fn icon_cells_ignore_order_and_hidden_samples() {
    let a = vec![
        sample(MetricKind::Gpu, "GPU", Some(9.0)),
        sample(MetricKind::Network, "NET", Some(50.0)),
        sample(MetricKind::Cpu, "CPU", Some(1.0)),
        sample(MetricKind::Npu, "NPU", None),
    ];
    let b = vec![
        sample(MetricKind::Cpu, "CPU", Some(1.0)),
        sample(MetricKind::Gpu, "GPU", Some(9.0)),
    ];
    assert_eq!(draw_metric_grid(&a), draw_metric_grid(&b));
    let hidden = vec![sample(MetricKind::Network, "NET", Some(50.0)), sample(MetricKind::Npu, "NPU", None)];
    assert!(draw_metric_grid(&hidden).is_empty());
}
