//! The user's settings.
use vstd::prelude::*;

verus! {

/// Settings kept between sessions.
#[derive(Debug, Clone)]
pub struct Config {
    /// Where downloads and screenshots are written.
    pub download_directory: String,
    /// The editor that live editing opens.
    pub editor: String,
    pub auto_refresh: bool,
}

impl Config {
    /// The settings used where none were saved: the system's download
    /// directory (`.` where it has none), the editor named by the
    /// environment (`nano` where none is named), and automatic refresh on.
    pub fn with_fallbacks(download_dir: Option<String>, editor: Option<String>) -> (c: Config)
        ensures
            c.download_directory@ == (match download_dir {
                Some(d) => d@,
                None => seq!['.'],
            }),
            c.editor@ == (match editor {
                Some(e) => e@,
                None => seq!['n', 'a', 'n', 'o'],
            }),
            c.auto_refresh,
    {
        let download_directory = match download_dir {
            Some(d) => d,
            None => {
                let dot = ".";
                proof {
                    reveal_strlit(".");
                    assert(dot@ =~= seq!['.']);
                }
                String::from_str(dot)
            },
        };
        let editor = match editor {
            Some(e) => e,
            None => {
                let nano = "nano";
                proof {
                    reveal_strlit("nano");
                    assert(nano@ =~= seq!['n', 'a', 'n', 'o']);
                }
                String::from_str(nano)
            },
        };
        Config { download_directory, editor, auto_refresh: true }
    }
}

} // verus!
