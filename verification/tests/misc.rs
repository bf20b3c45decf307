use yer::bitmap::{BitmapError, BitmapHandle, BitmapServer, LoadMode};
use yer::constants::{UNDO_STACK_SIZE_DEFAULT, UNDO_STACK_SIZE_MAX, UNDO_STACK_SIZE_MIN};
use yer::id::BitmapId;
use yer::preferences::{backup_extension, Preferences};
use yer::theme::IconAtlasSprite;
use yer::ui::file_dialog::{sanitized_file_name, DialogState, DEFAULT_FILE_NAME};
use yer::ui::layer::{layer_move_options, masks_for_layer, LayerMove};
use yer::ui::state::UiState;

#[test]
fn sanitize_path_appends_extension_to_filename_without_extension() {
    assert_eq!(sanitized_file_name("somefile", None), Some("somefile.yer".to_string()));
}

#[test]
fn sanitize_path_does_not_change_filename_with_correct_extension() {
    assert_eq!(sanitized_file_name("somefile.yer", Some("yer")), None);
}

#[test]
fn sanitize_path_adds_extension_if_the_filename_has_a_different_extension() {
    assert_eq!(sanitized_file_name("some.file", Some("file")), Some("some.file.yer".to_string()));
    assert_eq!(DEFAULT_FILE_NAME, "untitled.yer");
}

#[test]
fn dialog_state_carries_the_selected_path() {
    let state = DialogState::Selected("a.yer".to_string());
    assert!(matches!(state, DialogState::Selected(ref p) if p == "a.yer"));
}

#[test]
fn bitmap_server_load_returns_handle() {
    let mut server = BitmapServer::default();
    let path = "test_assets/smiley_heightmap.png".to_string();
    let handle = server.load(&path, LoadMode::Linked);
    assert_eq!(server.len(), 1);
    assert!(matches!(server.get_load_mode(handle), Ok(LoadMode::Linked)));
    // Loading the same path again gives the same handle and adds nothing.
    let again = server.load(&path, LoadMode::Linked);
    assert_eq!(again, handle);
    assert_eq!(server.len(), 1);
}

// The pixels live with the application; the library's part of getting a
// bitmap is finding its entry by handle and by path.
#[test]
fn bitmap_server_get_returns_a_reference_to_image_data() {
    let mut server = BitmapServer::default();
    let path = "test_assets/smiley_heightmap.png".to_string();
    let handle = server.load(&path, LoadMode::Linked);
    assert_eq!(server.find_handle_from_path(&path).ok(), Some(handle));
    let (h, mode, p) = server.entry(0);
    assert_eq!(h, handle);
    assert_eq!(mode, LoadMode::Linked);
    assert_eq!(p, &path);
}

#[test]
fn unknown_bitmaps_are_errors() {
    let mut server = BitmapServer::default();
    let unknown = BitmapHandle::from_id(BitmapId::from_u128(42));
    assert!(matches!(server.get_load_mode(unknown), Err(BitmapError::InvalidHandle(h)) if h == unknown));
    assert!(matches!(server.find_handle_from_path(&"x.png".to_string()), Err(BitmapError::InvalidPath(p)) if p == "x.png"));
    assert!(matches!(server.remove(unknown), Err(BitmapError::InvalidHandle(_))));
}

#[test]
fn removing_a_bitmap_forgets_it() {
    let mut server = BitmapServer::default();
    let a = server.load(&"a.png".to_string(), LoadMode::Linked);
    let b = server.load(&"b.png".to_string(), LoadMode::Linked);
    assert_ne!(a, b);
    assert!(server.remove(a).is_ok());
    assert_eq!(server.len(), 1);
    assert_eq!(server.entry(0).0, b);
    assert!(server.find_handle_from_path(&"a.png".to_string()).is_err());
    assert_eq!(LoadMode::default(), LoadMode::Linked);
}

#[test]
fn preferences_default_and_backup_name() {
    let mut preferences = Preferences::default();
    assert_eq!(preferences.max_undo_stack_size(), UNDO_STACK_SIZE_DEFAULT);
    assert_eq!(UNDO_STACK_SIZE_DEFAULT, 20);
    assert!(UNDO_STACK_SIZE_MIN <= UNDO_STACK_SIZE_DEFAULT && UNDO_STACK_SIZE_DEFAULT <= UNDO_STACK_SIZE_MAX);
    assert!(preferences.file_path().is_none());
    preferences.set_file_path("config.toml".to_string());
    preferences.set_max_undo_stack_size(7);
    assert_eq!(preferences.file_path().map(|p| p.as_str()), Some("config.toml"));
    assert_eq!(preferences.max_undo_stack_size(), 7);
    assert_eq!(backup_extension("toml"), "toml.bak");
}

#[test]
fn icon_atlas_cells() {
    assert_eq!(IconAtlasSprite::Undo.atlas_cell(), (0, 1));
    assert_eq!(IconAtlasSprite::Redo.atlas_cell(), (1, 1));
}

#[test]
fn ui_state_is_interactive_by_default() {
    assert!(UiState::default().is_interactive());
    assert!(!UiState::ShowingSaveFileDialog.is_interactive());
}

#[test]
fn layer_moves_need_exactly_one_selected_layer() {
    assert_eq!(layer_move_options(&vec![true]), None);
    assert_eq!(layer_move_options(&vec![true, true, false]), None);
    assert_eq!(layer_move_options(&vec![false, false]), None);
    assert_eq!(
        layer_move_options(&vec![true, false, false]),
        Some(LayerMove { selected: 0, raise_with: Some(1), lower_with: None })
    );
    assert_eq!(
        layer_move_options(&vec![false, true, false]),
        Some(LayerMove { selected: 1, raise_with: Some(2), lower_with: Some(0) })
    );
    assert_eq!(
        layer_move_options(&vec![false, false, true]),
        Some(LayerMove { selected: 2, raise_with: None, lower_with: Some(1) })
    );
}

#[test]
fn masks_of_a_layer_are_listed_by_key() {
    let orders = vec![200, 100, 50, 300, 100];
    let parents = vec![7, 7, 9, 7, 7];
    assert_eq!(masks_for_layer(&orders, &parents, 7), vec![1, 4, 0, 3]);
    assert_eq!(masks_for_layer(&orders, &parents, 9), vec![2]);
    assert_eq!(masks_for_layer(&orders, &parents, 1), Vec::<usize>::new());
}

#[test]
fn linked_bitmaps_can_always_be_looked_up() {
    let mut server = BitmapServer::default();
    let path = "a.png".to_string();
    assert!(server.path_lookup_supported(&path));
    let _handle = server.load(&path, LoadMode::Linked);
    assert!(server.path_lookup_supported(&path));
    assert!(server.path_lookup_supported(&"b.png".to_string()));
}

#[test]
fn sanitizing_a_sanitized_name_changes_nothing() {
    let once = sanitized_file_name("some.file", Some("file")).unwrap();
    assert_eq!(once, "some.file.yer");
    assert_eq!(sanitized_file_name(&once, Some("yer")), None);
}
