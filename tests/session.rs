use colorswitch::image::PositionInfo;
use colorswitch::session::{App, AppState, Msg, Outcome};

const RENDER: Outcome = Outcome { should_render: true, redraw: false };
const RENDER_AND_DRAW: Outcome = Outcome { should_render: true, redraw: true };

#[test]
fn loading_an_image() {
    let mut app: App<&str> = App::new();
    assert!(matches!(app.state, AppState::Ready));
    assert_eq!(app.status(), ("Ready", "display-none"));
    assert_eq!(app.position_info.canv_width(), 300);
    assert_eq!(app.position_info.canv_height(), 220);

    assert_eq!(app.update(Msg::Files), RENDER);
    assert!(matches!(app.state, AppState::ReadingFile));
    assert_eq!(app.status(), ("Reading file", "compute-modal"));

    assert_eq!(app.update(Msg::FileLoaded("cat.png")), RENDER);
    assert!(matches!(app.state, AppState::DecodingImage("cat.png")));
    assert_eq!(app.status(), ("Decoding image", "compute-modal"));
    assert_eq!(app.file_info, None);

    assert_eq!(app.update(Msg::ImageLoaded(640, 480)), RENDER_AND_DRAW);
    assert!(matches!(app.state, AppState::Ready));
    assert_eq!(app.file_info, Some("cat.png"));
    assert_eq!(app.position_info.image_dims, Some((640, 480)));
    assert_eq!(app.position_info.canv_width(), 640);
    assert_eq!(app.position_info.image_height(), 480);
    assert_eq!(app.position_info.canv_height(), 500);
}

#[test]
fn image_loaded_without_decoding_draws_nothing() {
    let mut app: App<u32> = App::new();
    assert_eq!(app.update(Msg::ImageLoaded(10, 10)), RENDER);
    assert_eq!(app.file_info, None);
    assert!(matches!(app.state, AppState::Ready));
    assert_eq!(app.position_info.canv_width(), PositionInfo::default().canv_width());
    assert_eq!(app.position_info.image_dims, None);
}

#[test]
fn errors_are_logged_and_cleared_by_new_files() {
    let mut app: App<u32> = App::new();
    assert_eq!(app.update(Msg::FileLoaded(1)), RENDER);
    assert_eq!(app.update(Msg::ImageErrored("Failed to load image.".to_string())), RENDER);
    assert!(matches!(app.state, AppState::Ready));
    assert_eq!(app.error_log, vec!["Failed to load image.".to_string()]);
    assert_eq!(app.file_info, None);
    app.update(Msg::ImageErrored("again".to_string()));
    assert_eq!(app.error_log.len(), 2);
    assert_eq!(app.update(Msg::Files), RENDER);
    assert!(app.error_log.is_empty());
}
