use maze_raster::color::Color;
use maze_raster::render::Image;

#[test]
fn new_call_default_params() {
    let image = Image::new();
    assert_eq!(40, image.wall_width);
    assert_eq!(40, image.passage_width);
    assert_eq!(Color::RGB(250, 250, 250), image.background_color);
    assert_eq!(Color::RGB(0, 0, 0), image.foreground_color);
    assert_eq!(50, image.margin);
}

#[test]
fn params_change() {
    let image = Image::new()
        .wall(10)
        .passage(5)
        .background(Color::RGB(1, 1, 1))
        .foreground(Color::RGB(100, 100, 100))
        .margin(20);

    assert_eq!(10, image.wall_width);
    assert_eq!(5, image.passage_width);
    assert_eq!(Color::RGB(1, 1, 1), image.background_color);
    assert_eq!(Color::RGB(100, 100, 100), image.foreground_color);
    assert_eq!(20, image.margin);
}
