//! The camera's part in the projection: which fit governs, and when the projection is
//! due. The arithmetic on the sizes is the caller's; here it is done in `f32`.

use tgr::{Camera2d, View};

type Camera = Camera2d<(f32, f32), f32>;

struct Projection {
    /// Half the visible extent of the canvas.
    extent: (f32, f32),
    /// Units of the canvas for one pixel of the window.
    pixel: (f32, f32),
}

fn project(camera: &Camera) -> Projection {
    let aspect_window = camera.window.0 / camera.window.1;
    let aspect_canvas = camera.canvas.0 / camera.canvas.1;
    let canvas = (camera.canvas.0 / 2. * camera.zoom, camera.canvas.1 / 2. * camera.zoom);
    let window = (camera.window.0 / 2., camera.window.1 / 2.);
    match camera.active(aspect_window > aspect_canvas) {
        View::KeepWidth => {
            let scale = canvas.1 / (aspect_window / aspect_canvas);
            Projection { extent: (canvas.0, scale), pixel: (canvas.0 / window.0, scale / window.1) }
        }
        View::KeepHeight => {
            let scale = canvas.0 / (aspect_canvas / aspect_window);
            Projection { extent: (scale, canvas.1), pixel: (scale / window.0, canvas.1 / window.1) }
        }
        View::Scale => Projection { extent: canvas, pixel: (canvas.0 / window.0, canvas.1 / window.1) },
        View::Window => Projection {
            extent: (window.0 * camera.zoom, window.1 * camera.zoom),
            pixel: (camera.zoom, camera.zoom),
        },
    }
}

fn to_canvas(camera: &Camera, x: f32, y: f32) -> (f32, f32) {
    let p = project(camera);
    (
        (x - camera.window.0 / 2.) * p.pixel.0 + camera.position.0,
        (y - camera.window.1 / 2.) * p.pixel.1 + camera.position.1,
    )
}

#[test]
fn a_wide_window_on_a_square_canvas_keeps_the_height() {
    let camera = Camera::new((1280., 720.), (1000., 1000.), (0., 0.), 1.);
    assert_eq!(camera.active(1280. / 720. > 1000. / 1000.), View::KeepHeight);
    let p = project(&camera);
    assert_eq!(p.extent.1, 500.);
    assert_eq!(p.extent.0, 500. / (1. / (1280f32 / 720.)));
    assert!((p.extent.0 - 888.8889).abs() < 1e-3);
}

#[test]
fn a_narrow_window_on_a_square_canvas_keeps_the_width() {
    let camera = Camera::new((720., 1280.), (1000., 1000.), (0., 0.), 1.);
    let p = project(&camera);
    assert_eq!(p.extent.0, 500.);
    assert!((p.extent.1 - 888.8889).abs() < 1e-3);
}

#[test]
fn the_fits_that_were_chosen_govern() {
    let camera = Camera::new((1280., 720.), (1000., 1000.), (0., 0.), 2.).view(View::Scale, View::Window);
    assert_eq!(project(&camera).extent, (1000., 1000.));
    let camera = camera.window((500., 1000.));
    assert_eq!(project(&camera).extent, (500., 1000.));
    assert_eq!(project(&camera).pixel, (2., 2.));
}

#[test]
fn the_middle_of_the_window_is_where_the_camera_is() {
    let camera = Camera::new((1280., 720.), (1000., 1000.), (0., 0.), 1.);
    assert_eq!(to_canvas(&camera, 640., 360.), (0., 0.));
    let camera = camera.set((30., -40.));
    assert_eq!(to_canvas(&camera, 640., 360.), (30., -40.));
    let corner = to_canvas(&camera, 0., 0.);
    assert!((corner.0 - (30. - 888.8889)).abs() < 1e-3);
    assert_eq!(corner.1, -540.);
}

#[test]
fn the_projection_is_due_once_after_any_number_of_changes() {
    let mut camera = Camera::new((1280., 720.), (1000., 1000.), (0., 0.), 1.);
    assert!(!camera.take_canvas_update());
    camera = camera.set((1., 1.)).set_zoom(3.).canvas((10., 10.));
    camera.resize_event((100., 100.));
    assert!(camera.take_canvas_update());
    assert!(!camera.take_canvas_update());
    assert!(!camera.take_window_update());
}
