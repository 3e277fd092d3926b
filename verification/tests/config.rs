use terrain_generator::config::{ConfigError, Layout};

fn layout(width: usize, continent_count: usize, kernel_radius: usize) -> Layout {
    Layout { width, continent_count, kernel_radius, fractal_main_layer: 2 }
}

#[test]
fn sound_configurations_pass() {
    assert_eq!(layout(5, 1, 3).validate(), Ok(()));
    assert_eq!(layout(9, 3, 9).validate(), Ok(()));
    assert_eq!(layout(2, 24, 0).validate(), Ok(()));
    assert_eq!(layout(512, 12, 100).validate(), Ok(()));
}

#[test]
fn narrow_faces_are_turned_down() {
    assert_eq!(layout(0, 1, 0).validate(), Err(ConfigError::WidthTooSmall));
    assert_eq!(layout(1, 1, 1).validate(), Err(ConfigError::WidthTooSmall));
    // the width is looked at first
    assert_eq!(layout(1, 0, 7).validate(), Err(ConfigError::WidthTooSmall));
}

#[test]
fn huge_faces_are_turned_down() {
    assert_eq!(layout((1 << 20) + 1, 1, 1).validate(), Err(ConfigError::WidthTooLarge));
    assert_eq!(layout(usize::MAX, 1, 1).validate(), Err(ConfigError::WidthTooLarge));
    assert_eq!(layout(usize::MAX, 0, 1).validate(), Err(ConfigError::WidthTooLarge));
}

#[test]
fn continent_count_must_be_between_one_and_the_cells() {
    assert_eq!(layout(5, 0, 3).validate(), Err(ConfigError::NoContinents));
    assert_eq!(layout(5, 150, 3).validate(), Ok(()));
    assert_eq!(layout(5, 151, 3).validate(), Err(ConfigError::TooManyContinents));
    assert_eq!(layout(5, usize::MAX, 3).validate(), Err(ConfigError::TooManyContinents));
    // the continents are looked at before the kernel
    assert_eq!(layout(5, 0, 6).validate(), Err(ConfigError::NoContinents));
}

#[test]
fn kernel_must_stay_on_the_neighbouring_faces() {
    assert_eq!(layout(5, 2, 5).validate(), Ok(()));
    assert_eq!(layout(5, 2, 6).validate(), Err(ConfigError::KernelTooWide));
}

#[test]
fn main_layer_must_be_a_layer() {
    let mut l = layout(5, 2, 3);
    l.fractal_main_layer = usize::MAX - 1;
    assert_eq!(l.validate(), Ok(()));
    l.fractal_main_layer = usize::MAX;
    assert_eq!(l.validate(), Err(ConfigError::MainLayerTooHigh));
    l.kernel_radius = 6;
    assert_eq!(l.validate(), Err(ConfigError::KernelTooWide));
}
