//! The clipboard that holds nothing.

use rimeterm::clipboard::{Clipboard, Error};

#[test]
fn opens_and_refuses() {
    let mut board = Clipboard::new().unwrap();
    assert_eq!(board.set_text("text"), Err(Error));
    assert_eq!(board.get_text(), Err(Error));
    assert_eq!(
        Error.message(),
        "clipboard is not available on Android/Termux"
    );
}
