use base64::Engine;
use videovault::image::{assemble_data_url, image_data_url, mime_type_of};

#[test]
fn media_types() {
    assert_eq!(mime_type_of("/d/a.jpg"), "image/jpeg");
    assert_eq!(mime_type_of("/d/a.JPEG"), "image/jpeg");
    assert_eq!(mime_type_of("/d/a.png"), "image/png");
    assert_eq!(mime_type_of("/d/a.bmp"), "image/bmp");
    assert_eq!(mime_type_of("/d/a.webp"), "image/webp");
    assert_eq!(mime_type_of("/d/a.gif"), "image/jpeg");
    assert_eq!(mime_type_of("/d/a"), "image/jpeg");
}

#[test]
fn data_urls_are_put_together() {
    assert_eq!(assemble_data_url("image/png", "QUJD"), "data:image/png;base64,QUJD");
    assert_eq!(assemble_data_url("", ""), "data:;base64,");
}

#[test]
fn image_data_url_encodes_the_content() {
    assert_eq!(image_data_url("/d/a.png", &b"ABC".to_vec()), "data:image/png;base64,QUJD");
    assert_eq!(image_data_url("/d/a.jpg", &b"hello".to_vec()), "data:image/jpeg;base64,aGVsbG8=");
    assert_eq!(image_data_url("/d/a.webp", &Vec::new()), "data:image/webp;base64,");
    let content: Vec<u8> = (0..=255).collect();
    let expected = format!(
        "data:image/bmp;base64,{}",
        base64::engine::general_purpose::STANDARD.encode(&content)
    );
    assert_eq!(image_data_url("/d/a.bmp", &content), expected);
}
