use colorswitch::image::{FileData, ImType, PositionInfo, TEXTBOX_HEIGHT_PX};

#[test]
fn labels() {
    assert_eq!(ImType::Original.label(), "Original");
    assert_eq!(ImType::Rotated.label(), "Color Rotated");
    assert_eq!(ImType::Stretch.label(), "Color Stretched");
    assert_eq!(ImType::default(), ImType::Original);
}

#[test]
fn button_texts() {
    assert_eq!(ImType::Original.button_text(), "Download original");
    assert_eq!(ImType::Rotated.button_text(), "Download color-rotated");
    assert_eq!(ImType::Stretch.button_text(), "Download color-stretched");
}

#[test]
fn captions() {
    assert_eq!(ImType::Original.caption("test.png"), "test.png");
    assert_eq!(ImType::Rotated.caption("test.png"), "test.png: Color Rotated");
    assert_eq!(ImType::Stretch.caption("test.png"), "test.png: Color Stretched");
}

#[test]
fn download_names() {
    assert_eq!(ImType::Original.download_name("photo"), "photo-original");
    assert_eq!(ImType::Rotated.download_name("photo"), "photo-rotated");
    assert_eq!(ImType::Stretch.download_name(""), "-stretch");
}

#[test]
fn names_for_stems() {
    assert_eq!(ImType::Rotated.name_for(Some("photo"), "photo.jpg"), "photo-rotated");
    assert_eq!(ImType::Stretch.name_for(None, ".."), "..-stretch");
    assert_eq!(ImType::Original.name_for(Some(""), "x"), "-original");
}

#[test]
fn basenames() {
    assert_eq!(ImType::Original.basename("photo.jpg"), "photo-original");
    assert_eq!(ImType::Rotated.basename("dir/photo.tar.gz"), "photo.tar-rotated");
    assert_eq!(ImType::Stretch.basename(".hidden"), ".hidden-stretch");
    assert_eq!(ImType::Rotated.basename(""), "-rotated");
    assert_eq!(ImType::Rotated.basename(".."), "..-rotated");
}

#[test]
fn position_info_follows_image() {
    let mut p = PositionInfo::default();
    assert_eq!(p.canv_width(), 300);
    assert_eq!(p.image_height(), 200);
    assert_eq!(p.canv_height(), 200 + TEXTBOX_HEIGHT_PX);
    assert_eq!(p.image_dims, None);
    p.update_for_image(640, 480);
    assert_eq!(p.image_dims, Some((640, 480)));
    assert_eq!(p.canv_width(), 640);
    assert_eq!(p.image_height(), 480);
    assert_eq!(p.canv_height(), 500);
}

#[test]
fn file_data_holds_bytes() {
    let f = FileData { content: vec![1, 2, 3], name: "a.png".to_string() };
    assert_eq!(f.content.len(), 3);
    assert_eq!(f.name, "a.png");
}
