//! What is injected into the web client, and the clean-up of transcodes.

use remux::tasks::clean_transcode_folder::{CleanTranscodeFolderTask, TaskCategory};
use remux::web_patches::{js, CSS};

#[test]
fn generic_item_transports_are_not_rewritten_to_source_stubs() {
    let js = js();
    assert!(!js.contains("proto.fetch = function"));
    assert!(!js.contains("XMLHttpRequest.prototype.open = function"));
    assert!(js.contains("if (!isCurrentPage()) return _getItem.apply(self, arguments);"));
}

#[test]
fn async_sources_remain_scoped_to_their_detail_page() {
    let js = js();
    assert!(js.contains("item.MediaSources = ms;"));
    assert!(js.contains("var ms = form._remuxMediaSources;"));
    assert!(!js.contains("window._remuxCurrentMediaSources"));
}

#[test]
fn webos_header_pointer_supports_pointer_mouse_and_select_events() {
    let js = js();
    assert!(CSS.contains("html.layout-tv .skinHeader .headerTop"));
    assert!(CSS.contains("pointer-events: auto !important"));
    assert!(js.contains("pressedHeaderControl = control;"));
    assert!(js.contains("headerControlAtPoint"));
    assert!(js.contains("addEventListener('pointerdown'"));
    assert!(js.contains("selectPointedHeaderControl"));
    assert!(js.contains("if (hasOpenDialog()) return null;"));
    assert!(js.contains("var control = directControl || headerControlForEvent(event);"));
    assert!(js.contains("control.click();"));
    assert!(js.contains("routeHeaderClick"));
}

#[test]
fn clean_up_spares_the_directories_of_sessions() {
    let task = CleanTranscodeFolderTask;
    assert_eq!(task.key(), "CleanTranscodeFolder");
    assert_eq!(task.name(), "Clean Transcode Folder");
    assert_eq!(
        task.description(),
        "Deletes temporary files left over from transcoding sessions."
    );
    assert_eq!(task.short_description(), "Deletes leftover temp transcode files");
    assert_eq!(task.category(), TaskCategory::Maintenance);
    let names = vec!["a".to_string(), "b".to_string()];
    assert_eq!(task.unused_dirs(&names, &vec!["a".to_string()]), vec!["b".to_string()]);
    assert_eq!(task.orphaned_process(" 42\n"), Some(42));
    assert_eq!(task.orphaned_process("0"), None);
    assert_eq!(task.orphaned_process("-3"), None);
    assert_eq!(task.orphaned_process("99999999999"), None);
    assert_eq!(task.orphaned_process("x"), None);
}
