use pathtracer::config::ConfigError;
use pathtracer::render::{channel_byte, pixel_offsets, Action, Driver};

const SCENE: &str = "0 0 0\n0 0 1\n4 2\n0.5\n3 2\n0.001\n1 1\nwhite 1 mirror sphere 0 0 5 1\n";
const OTHER: &str = "0 0 0\n0 0 1\n8 6\n0.5\n3 2\n0.001\n1 1\n";

fn frames(driver: &Driver) -> Option<u64> {
    match driver {
        Driver::Rendering { frames, .. } => Some(*frames),
        _ => None,
    }
}

#[test]
fn offsets_of_the_corners() {
    assert_eq!(pixel_offsets(0, 0, 640, 480), (-640, 478));
    assert_eq!(pixel_offsets(639, 479, 640, 480), (638, -480));
    assert_eq!(pixel_offsets(0, 479, 640, 480), (-640, -480));
    assert_eq!(pixel_offsets(639, 0, 640, 480), (638, 478));
}

#[test]
fn offsets_of_the_middle() {
    assert_eq!(pixel_offsets(320, 239, 640, 480), (0, 0));
    assert_eq!(pixel_offsets(0, 0, 1, 1), (-1, -1));
}

#[test]
fn offsets_of_the_largest_image() {
    let max = u32::MAX;
    assert_eq!(pixel_offsets(max - 1, 0, max, max), (max as i64 - 2, max as i64 - 2));
    assert_eq!(pixel_offsets(0, max - 1, max, max), (-(max as i64), -(max as i64)));
}

#[test]
fn first_description_starts_a_scene() {
    let (driver, action) = Driver::new().on_text(SCENE);
    assert!(matches!(action, Action::Restart));
    assert_eq!(frames(&driver), Some(0));
    let config = driver.config().unwrap();
    assert_eq!(config.width, 4);
    assert_eq!(config.height, 2);
    assert_eq!(config.objects.len(), 1);
}

#[test]
fn idle_driver_has_no_scene() {
    let driver = Driver::new();
    assert!(driver.config().is_none());
    let (driver, count) = driver.on_frame();
    assert_eq!(count, None);
    assert!(matches!(driver, Driver::Idle));
}

#[test]
fn passes_are_counted_from_one() {
    let (driver, _) = Driver::new().on_text(SCENE);
    let (driver, first) = driver.on_frame();
    assert_eq!(first, Some(1));
    let (driver, second) = driver.on_frame();
    assert_eq!(second, Some(2));
    assert_eq!(frames(&driver), Some(2));
}

#[test]
fn unchanged_description_continues() {
    let (driver, _) = Driver::new().on_text(SCENE);
    let (driver, _) = driver.on_frame();
    let (driver, action) = driver.on_text(SCENE);
    assert!(matches!(action, Action::Continue));
    assert_eq!(frames(&driver), Some(1));
    let (_, count) = driver.on_frame();
    assert_eq!(count, Some(2));
}

#[test]
fn changed_description_starts_afresh() {
    let (driver, _) = Driver::new().on_text(SCENE);
    let (driver, _) = driver.on_frame();
    let (driver, _) = driver.on_frame();
    let (driver, action) = driver.on_text(OTHER);
    assert!(matches!(action, Action::Restart));
    assert_eq!(frames(&driver), Some(0));
    assert_eq!(driver.config().unwrap().width, 8);
    let (_, count) = driver.on_frame();
    assert_eq!(count, Some(1));
}

#[test]
fn refused_description_is_reported_and_waited_on() {
    let bad = "0 0 0\n0 0 one\n";
    let (driver, action) = Driver::new().on_text(bad);
    match action {
        Action::Report(ConfigError::InvalidLine(line)) => assert_eq!(line, "0 0 one"),
        other => panic!("{:?}", other),
    }
    assert!(driver.config().is_none());
    let (driver, action) = driver.on_text(bad);
    assert!(matches!(action, Action::Sleep));
    let (driver, count) = driver.on_frame();
    assert_eq!(count, None);
    let (driver, action) = driver.on_text(SCENE);
    assert!(matches!(action, Action::Restart));
    assert_eq!(frames(&driver), Some(0));
}

#[test]
fn error_while_rendering_gives_up_the_scene() {
    let (driver, _) = Driver::new().on_text(SCENE);
    let (driver, _) = driver.on_frame();
    let (driver, action) = driver.on_text("");
    assert!(matches!(action, Action::Report(ConfigError::NotEnoughLines)));
    assert!(matches!(driver, Driver::Waiting { .. }));
    let (driver, action) = driver.on_text("x");
    assert!(matches!(action, Action::Report(ConfigError::NotEnoughLines)));
    let (driver, action) = driver.on_text(SCENE);
    assert!(matches!(action, Action::Restart));
    assert_eq!(frames(&driver), Some(0));
}

#[test]
fn count_stops_at_its_limit() {
    let (driver, _) = Driver::new().on_text(SCENE);
    let driver = match driver {
        Driver::Rendering { raw, config, .. } => Driver::Rendering { raw, config, frames: u64::MAX - 1 },
        other => other,
    };
    let (driver, count) = driver.on_frame();
    assert_eq!(count, Some(u64::MAX));
    let (driver, count) = driver.on_frame();
    assert_eq!(count, None);
    assert_eq!(frames(&driver), Some(u64::MAX));
}

#[test]
fn bytes_of_channel_values() {
    assert_eq!(channel_byte(0.0f64.to_bits()), 0);
    assert_eq!(channel_byte(0.999f64.to_bits()), 0);
    assert_eq!(channel_byte(1.0f64.to_bits()), 1);
    assert_eq!(channel_byte(1.999f64.to_bits()), 1);
    assert_eq!(channel_byte(127.5f64.to_bits()), 127);
    assert_eq!(channel_byte(128.0f64.to_bits()), 128);
    assert_eq!(channel_byte(254.999f64.to_bits()), 254);
    assert_eq!(channel_byte(255.0f64.to_bits()), 255);
}

#[test]
fn bytes_outside_the_range_are_clamped() {
    assert_eq!(channel_byte(255.5f64.to_bits()), 255);
    assert_eq!(channel_byte(256.0f64.to_bits()), 255);
    assert_eq!(channel_byte(300.0f64.to_bits()), 255);
    assert_eq!(channel_byte(1e300f64.to_bits()), 255);
    assert_eq!(channel_byte(f64::INFINITY.to_bits()), 255);
    assert_eq!(channel_byte((-0.0f64).to_bits()), 0);
    assert_eq!(channel_byte((-1.0f64).to_bits()), 0);
    assert_eq!(channel_byte((-300.0f64).to_bits()), 0);
    assert_eq!(channel_byte(f64::NEG_INFINITY.to_bits()), 0);
    assert_eq!(channel_byte(f64::NAN.to_bits()), 0);
    assert_eq!(channel_byte((-f64::NAN).to_bits()), 0);
}

#[test]
fn bytes_agree_with_the_cast() {
    for i in -500..30000 {
        let v = i as f64 / 100.0;
        assert_eq!(channel_byte(v.to_bits()), v as u8, "{}", v);
    }
    let mut x: u64 = 0x2545_f491_4f6c_dd1d;
    for _ in 0..20000 {
        x ^= x << 13;
        x ^= x >> 7;
        x ^= x << 17;
        assert_eq!(channel_byte(x), f64::from_bits(x) as u8);
        let near = 0x3ff0_0000_0000_0000 + x % 0x0080_0000_0000_0000;
        assert_eq!(channel_byte(near), f64::from_bits(near) as u8);
    }
}
