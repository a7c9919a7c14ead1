use neat::content::{is_content_extractable, is_plain_text, matches_content};
use neat::metadata::{is_audio_supported, is_exif_supported, is_image_supported, AudioMetadata,
    ImageMetadata};

#[test]
fn metadata_test_is_exif_supported() {
    assert!(is_exif_supported("photo.jpg"));
    assert!(is_exif_supported("photo.JPEG"));
    assert!(is_exif_supported("photo.tiff"));
    assert!(is_exif_supported("photo.heic"));
    assert!(!is_exif_supported("photo.png"));
    assert!(!is_exif_supported("document.pdf"));
}

#[test]
fn test_is_audio_supported() {
    assert!(is_audio_supported("song.mp3"));
    assert!(is_audio_supported("song.FLAC"));
    assert!(is_audio_supported("song.ogg"));
    assert!(!is_audio_supported("song.txt"));
    assert!(!is_audio_supported("song"));
}

#[test]
fn test_is_image_supported() {
    assert!(is_image_supported("pic.jpg"));
    assert!(is_image_supported("pic.webp"));
    assert!(!is_image_supported("pic.tiff"));
    assert!(!is_image_supported("pic.txt"));
}

#[test]
fn metadata_test_date_taken_folder_parsing() {
    let meta1 = ImageMetadata {
        date_taken: Some("\"2024:06:15 10:30:00\"".to_string()),
        ..Default::default()
    };
    assert_eq!(meta1.date_taken_folder(), Some("2024/06".to_string()));

    let meta2 = ImageMetadata {
        date_taken: Some("2023:12:25 08:00:00".to_string()),
        ..Default::default()
    };
    assert_eq!(meta2.date_taken_folder(), Some("2023/12".to_string()));
}

#[test]
fn test_date_taken_folder_none() {
    let meta = ImageMetadata::default();
    assert_eq!(meta.date_taken_folder(), None);
}

#[test]
fn test_camera_folder_name_basic() {
    let meta = ImageMetadata { camera_model: Some("Canon EOS 5D".to_string()), ..Default::default() };
    assert_eq!(meta.camera_folder_name(), Some("Canon EOS 5D".to_string()));
}

#[test]
fn test_camera_folder_name_with_quotes() {
    let meta = ImageMetadata {
        camera_model: Some("\"iPhone 15 Pro\"".to_string()),
        ..Default::default()
    };
    assert_eq!(meta.camera_folder_name(), Some("iPhone 15 Pro".to_string()));
}

#[test]
fn test_camera_folder_name_sanitizes_special_chars() {
    let meta = ImageMetadata {
        camera_model: Some("Model/With:Special*Chars".to_string()),
        ..Default::default()
    };
    let result = meta.camera_folder_name().unwrap();
    assert!(!result.contains('/'));
    assert!(!result.contains(':'));
    assert!(!result.contains('*'));
}

#[test]
fn test_camera_folder_name_falls_back_to_make() {
    let meta = ImageMetadata {
        camera_make: Some("Sony".to_string()),
        camera_model: None,
        ..Default::default()
    };
    assert_eq!(meta.camera_folder_name(), Some("Sony".to_string()));
}

#[test]
fn test_camera_folder_name_none() {
    let meta = ImageMetadata::default();
    assert_eq!(meta.camera_folder_name(), None);
}

#[test]
fn test_audio_artist_folder_name() {
    let meta = AudioMetadata { artist: Some("Taylor Swift".to_string()), ..Default::default() };
    assert_eq!(meta.artist_folder_name(), Some("Taylor Swift".to_string()));
}

#[test]
fn test_audio_artist_folder_name_sanitizes() {
    let meta = AudioMetadata { artist: Some("AC/DC".to_string()), ..Default::default() };
    let result = meta.artist_folder_name().unwrap();
    assert!(!result.contains('/'));
}

#[test]
fn test_audio_album_folder_name() {
    let meta = AudioMetadata { album: Some("1989".to_string()), ..Default::default() };
    assert_eq!(meta.album_folder_name(), Some("1989".to_string()));
}

#[test]
fn test_audio_folder_name_empty_string() {
    let meta = AudioMetadata {
        artist: Some("   ".to_string()),
        album: Some("".to_string()),
        ..Default::default()
    };
    assert_eq!(meta.artist_folder_name(), None);
    assert_eq!(meta.album_folder_name(), None);
}

#[test]
fn test_image_metadata_default() {
    let meta = ImageMetadata::default();
    assert!(meta.camera_make.is_none());
    assert!(meta.camera_model.is_none());
    assert!(meta.date_taken.is_none());
}

#[test]
fn test_audio_metadata_default() {
    let meta = AudioMetadata::default();
    assert!(meta.artist.is_none());
    assert!(meta.album.is_none());
    assert!(meta.title.is_none());
    assert!(meta.genre.is_none());
    assert!(meta.year.is_none());
}

#[test]
fn test_is_content_extractable() {
    assert!(is_content_extractable("file.txt"));
    assert!(is_content_extractable("readme.md"));
    assert!(is_content_extractable("data.json"));
    assert!(!is_content_extractable("image.png"));
    assert!(!is_content_extractable("video.mp4"));
}

#[test]
fn test_is_plain_text() {
    assert!(is_plain_text("notes.txt"));
    assert!(is_plain_text("settings.toml"));
    assert!(!is_plain_text("binary.exe"));
}

#[test]
fn test_matches_content() {
    let content = "Invoice #12345\nAmount: $100.00\n";
    assert!(matches_content(content, "invoice"));
    assert!(matches_content(content, "INVOICE"));
    assert!(matches_content(content, "12345"));
    assert!(!matches_content(content, "receipt"));
}

#[test]
fn test_matches_content_non_text_file() {
    assert!(!is_content_extractable("image.png"));
}
