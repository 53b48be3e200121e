//! What the screen shows, decided from the browser's state: the footer's
//! hint, the details of a script, the delete count and the bars.
use vstd::prelude::*;

use crate::app::App;
use crate::device::Battery;
use crate::files::EntryType;
use crate::text::{chars_of, ends_with_chars, has_suffix, lowercase_of, to_lowercase};

verus! {

/// The action the footer suggests for the highlighted entry.
#[derive(Debug, Clone, Copy, PartialEq, Eq, Structural)]
pub enum FooterHint {
    /// No entry is highlighted.
    Nothing,
    /// A directory: open it.
    Open,
    /// A document or compiled Lua script: download it, or see its details.
    Pull,
    /// Any other file: mark it.
    Select,
}

/// What the details of a file add for its kind of script, going by the
/// suffix of its name (case counts).
#[derive(Debug, Clone, Copy, PartialEq, Eq, Structural)]
pub enum ScriptKind {
    /// `.tns`: a TI-Nspire document.
    Document,
    /// `.py`: MicroPython.
    Python,
    /// `.lua`: Nspire Lua.
    Lua,
    /// `.c`, `.h`, `.cpp`: C or C++ for Ndless.
    Native,
    Plain,
}

/// The footer's hint for `app` (see `FooterHint`); the suffixes are
/// compared without regard to case.
pub open spec fn footer_hint_of(app: App) -> FooterHint {
    match app.cursor_entry() {
        None => FooterHint::Nothing,
        Some(k) => {
            let f = app.entries()[k];
            let lower = lowercase_of(f.name);
            if f.entry_type == EntryType::Directory {
                FooterHint::Open
            } else if has_suffix(lower, ".tns"@) || has_suffix(lower, ".luax"@) {
                FooterHint::Pull
            } else {
                FooterHint::Select
            }
        },
    }
}

/// The kind of script a file named `name` holds.
pub open spec fn script_kind_of(name: Seq<char>) -> ScriptKind {
    if has_suffix(name, ".tns"@) {
        ScriptKind::Document
    } else if has_suffix(name, ".py"@) {
        ScriptKind::Python
    } else if has_suffix(name, ".lua"@) {
        ScriptKind::Lua
    } else if has_suffix(name, ".c"@) || has_suffix(name, ".h"@) || has_suffix(name, ".cpp"@) {
        ScriptKind::Native
    } else {
        ScriptKind::Plain
    }
}

/// `n` copies of `c`.
pub open spec fn repeat(c: char, n: nat) -> Seq<char> {
    Seq::new(n, |i: int| c)
}

/// A bar of ten cells for `percent`: a `#` for each full tenth, `-` for the
/// rest.
pub open spec fn bar_of(percent: nat) -> Seq<char> {
    repeat('#', percent / 10) + repeat('-', (10 - percent / 10) as nat)
}

/// The battery meter the sidebar shows.
pub open spec fn battery_meter_of(b: Battery) -> Seq<char> {
    match b {
        Battery::Low => "[#---------]"@,
        Battery::Normal => "[#####-----]"@,
        Battery::Powered => "[CONNECTED ]"@,
        Battery::Unknown(_) => "[##########]"@,
    }
}

fn suffix_is(name: &Vec<char>, suffix: &str) -> (r: bool)
    ensures
        r == has_suffix(name@, suffix@),
{
    let s = chars_of(suffix);
    ends_with_chars(name, &s)
}

impl App {
    /// The footer's hint (see `footer_hint_of`).
    pub fn footer_hint(&self) -> (h: FooterHint)
        ensures
            h == footer_hint_of(*self),
    {
        match self.cursor() {
            None => FooterHint::Nothing,
            Some(k) => {
                assert(self.all_files@[k as int]@ == self.entries()[k as int]);
                let f = &self.all_files[k];
                if f.is_dir() {
                    FooterHint::Open
                } else {
                    let lower = to_lowercase(f.name());
                    let lc = chars_of(lower.as_str());
                    if suffix_is(&lc, ".tns") || suffix_is(&lc, ".luax") {
                        FooterHint::Pull
                    } else {
                        FooterHint::Select
                    }
                }
            },
        }
    }

    /// How many entries the delete confirmation speaks of: the marked ones,
    /// or the highlighted one where none is marked.
    pub fn delete_count(&self) -> (n: usize)
        ensures
            n == (if self.selected_indices@.is_empty() {
                1
            } else {
                self.selected_indices@.len()
            }),
    {
        if self.selected_indices.is_empty() {
            1
        } else {
            self.selected_indices.len()
        }
    }
}

/// The kind of script a file named `name` holds (see `script_kind_of`).
pub fn script_kind(name: &str) -> (k: ScriptKind)
    ensures
        k == script_kind_of(name@),
{
    let n = chars_of(name);
    if suffix_is(&n, ".tns") {
        ScriptKind::Document
    } else if suffix_is(&n, ".py") {
        ScriptKind::Python
    } else if suffix_is(&n, ".lua") {
        ScriptKind::Lua
    } else if suffix_is(&n, ".c") || suffix_is(&n, ".h") || suffix_is(&n, ".cpp") {
        ScriptKind::Native
    } else {
        ScriptKind::Plain
    }
}

/// The ten-cell bar for a progress or fill of `percent` (below 110).
pub fn progress_bar(percent: usize) -> (r: String)
    requires
        percent < 110,
    ensures
        r@ == bar_of(percent as nat),
{
    let full = percent / 10;
    let mut r = String::new();
    let mut i: usize = 0;
    while i < 10
        invariant
            full == percent / 10,
            full <= 10,
            i <= 10,
            r@ == bar_of(percent as nat).take(i as int),
        decreases 10 - i,
    {
        let ghost before = r@;
        if i < full {
            r.append("#");
            proof {
                reveal_strlit("#");
            }
        } else {
            r.append("-");
            proof {
                reveal_strlit("-");
            }
        }
        assert(r@ =~= bar_of(percent as nat).take(i + 1));
        i = i + 1;
    }
    assert(bar_of(percent as nat).take(10) =~= bar_of(percent as nat));
    r
}

/// The battery meter the sidebar shows.
pub fn battery_meter(b: Battery) -> (r: String)
    ensures
        r@ == battery_meter_of(b),
{
    match b {
        Battery::Low => String::from_str("[#---------]"),
        Battery::Normal => String::from_str("[#####-----]"),
        Battery::Powered => String::from_str("[CONNECTED ]"),
        Battery::Unknown(_) => String::from_str("[##########]"),
    }
}

} // verus!
