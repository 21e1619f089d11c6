use mandelbrot_zoom::config::{check_config, ConfigError};

#[test]
fn accepts_valid_configuration() {
    assert_eq!(check_config(1920, 1080, 100_000, 500), Ok(()));
    assert_eq!(check_config(1, 1, 1, 1), Ok(()));
}

#[test]
fn rejects_zero_width() {
    assert_eq!(check_config(0, 1080, 100, 5), Err(ConfigError::ZeroWidth));
}

#[test]
fn rejects_zero_height() {
    assert_eq!(check_config(1920, 0, 100, 5), Err(ConfigError::ZeroHeight));
}

#[test]
fn rejects_zero_iterations() {
    assert_eq!(check_config(4, 4, 0, 5), Err(ConfigError::ZeroIterations));
}

#[test]
fn rejects_zero_frames() {
    assert_eq!(check_config(4, 4, 50, 0), Err(ConfigError::NoFrames));
}

#[test]
fn first_failing_check_wins() {
    assert_eq!(check_config(0, 0, 0, 0), Err(ConfigError::ZeroWidth));
    assert_eq!(check_config(4, 0, 0, 0), Err(ConfigError::ZeroHeight));
}

#[test]
fn rejects_frame_too_large_for_memory() {
    assert_eq!(
        check_config(u32::MAX, u32::MAX, 50, 1),
        Err(ConfigError::FrameTooLarge)
    );
}
