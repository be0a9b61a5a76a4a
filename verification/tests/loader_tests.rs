use music_player::loader::{
    audio_file_indices, files_button_label, folder_button_label, music_info_list, selection_type_of, AudioMetadata,
    DialogChoice, SelectionType,
};

fn meta(path: &str, title: Option<&str>) -> AudioMetadata {
    AudioMetadata {
        path: path.to_string(),
        duration: 61.25f32.to_bits(),
        title: title.map(|t| t.to_string()),
        artist: Some("Singer".to_string()),
        album: None,
    }
}

#[test]
fn play_list_is_numbered_in_order() {
    let list = music_info_list(vec![meta("/a.mp3", Some("A")), meta("/b.flac", None)]);
    assert_eq!(list.len(), 2);
    assert_eq!(list[0].id, 0);
    assert_eq!(list[1].id, 1);
    assert_eq!(list[0].title, "A");
    assert_eq!(list[1].title, "");
    assert_eq!(list[1].artist, "Singer");
    assert_eq!(list[0].album, "");
    assert_eq!(list[1].path, "/b.flac");
    assert_eq!(f32::from_bits(list[0].duration), 61.25);
    assert!(music_info_list(Vec::new()).is_empty());
}

fn kind(r: Option<SelectionType>) -> &'static str {
    match r {
        Some(SelectionType::Files) => "files",
        Some(SelectionType::Folder) => "folder",
        None => "none",
    }
}

#[test]
fn dialog_answers() {
    assert_eq!(files_button_label(), "选择文件");
    assert_eq!(folder_button_label(), "选择文件夹");
    assert_eq!(kind(selection_type_of(DialogChoice::Custom("选择文件".to_string()))), "files");
    assert_eq!(kind(selection_type_of(DialogChoice::Custom("选择文件夹".to_string()))), "folder");
    assert_eq!(kind(selection_type_of(DialogChoice::Custom("other".to_string()))), "none");
    assert_eq!(kind(selection_type_of(DialogChoice::Yes)), "none");
    assert_eq!(kind(selection_type_of(DialogChoice::No)), "none");
    assert_eq!(kind(selection_type_of(DialogChoice::Confirm)), "none");
    assert_eq!(kind(selection_type_of(DialogChoice::Cancel)), "none");
}

#[test]
fn chosen_paths_keep_only_audio_files_in_order() {
    let paths: Vec<String> = ["/m/a.mp3", "/m/notes.txt", "/m/B.FLAC", "/m/a.lrc", "/m/c.opus", "/m/noext"]
        .iter()
        .map(|p| p.to_string())
        .collect();
    assert_eq!(audio_file_indices(&paths), vec![0, 2, 4]);
    assert_eq!(audio_file_indices(&Vec::new()), Vec::<usize>::new());
}
