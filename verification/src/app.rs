//! The editing state: the entries, the selection, the mode, the text being
//! typed, the search query and the undo stack.

use vstd::prelude::*;
use crate::format::{
    ConfigItem, ItemStatus, ItemView, PathSegment, SegmentView, ValueType, clone_path, items_view,
    opt_view, path_has_prefix, path_starts_with, path_view,
};
use crate::format::hierarchical::{index_key, index_key_string};
use crate::text::{chars_of, lowercase, string_of, to_lowercase};
use crate::input::TextInput;

verus! {

/// The interaction mode.
#[derive(Debug, Clone, Copy, PartialEq, Eq, Structural)]
pub enum Mode {
    /// Navigation and commands.
    Normal,
    /// Typing a value.
    Insert,
    /// Typing a new key.
    InsertKey,
    /// Typing a search query.
    Search,
}

/// Where the cursor goes when typing starts.
#[derive(Debug, Clone, Copy, PartialEq, Eq, Structural)]
pub enum InsertVariant {
    /// At the start of the value.
    Start,
    /// At the end of the value.
    End,
    /// On an emptied value.
    Substitute,
}

/// Whether `needle` occurs in `hay` as a run of consecutive characters.
pub open spec fn occurs_in(hay: Seq<char>, needle: Seq<char>) -> bool {
    exists|i: int| 0 <= i <= hay.len() - needle.len() && #[trigger] hay.subrange(i, i + needle.len()) == needle
}

/// Whether `needle` occurs in `hay`.
pub fn contains_chars(hay: &Vec<char>, needle: &Vec<char>) -> (r: bool)
    ensures
        r == occurs_in(hay@, needle@),
{
    if needle.len() > hay.len() {
        return false;
    }
    let hl = hay.len();
    let mut i: usize = 0;
    while i <= hay.len() - needle.len()
        invariant
            hl == hay@.len(),
            needle@.len() <= hay@.len(),
            i <= hay@.len() - needle@.len() + 1,
            forall|k: int| 0 <= k < i ==> #[trigger] hay@.subrange(k, k + needle@.len()) != needle@,
        decreases hay@.len() - needle@.len() + 1 - i,
    {
        let mut j: usize = 0;
        let mut ok = true;
        while j < needle.len()
            invariant
                hl == hay@.len(),
                needle@.len() <= hay@.len(),
                i <= hay@.len() - needle@.len(),
                j <= needle@.len(),
                ok == (forall|m: int| 0 <= m < j ==> hay@[i + m] == needle@[m]),
            decreases needle@.len() - j,
        {
            assert(i + j < hay@.len());
            if hay[i + j] != needle[j] {
                ok = false;
            }
            j = j + 1;
        }
        if ok {
            assert(hay@.subrange(i as int, i + needle@.len()) =~= needle@);
            return true;
        }
        proof {
            let m = choose|m: int| 0 <= m < needle@.len() && hay@[i + m] != needle@[m];
            assert(hay@.subrange(i as int, i + needle@.len())[m] != needle@[m]);
        }
        i = i + 1;
    }
    proof {
        assert forall|k: int| 0 <= k <= hay@.len() - needle@.len() implies #[trigger] hay@.subrange(
            k,
            k + needle@.len(),
        ) != needle@ by {}
    }
    false
}

/// The positions, in order, among the first `n` entries, whose key holds
/// the lower-cased query when lower-cased itself.
pub open spec fn matches_upto(vars: Seq<ItemView>, q: Seq<char>, n: int) -> Seq<usize>
    decreases n,
{
    if n <= 0 || n > vars.len() {
        Seq::empty()
    } else {
        let prev = matches_upto(vars, q, n - 1);
        if occurs_in(lowercase(vars[n - 1].key), q) {
            prev.push((n - 1) as usize)
        } else {
            prev
        }
    }
}

/// The positions of the entries that a search for `query` matches: none
/// for an empty query, else those whose lower-cased key holds the
/// lower-cased query.
pub open spec fn search_matches(vars: Seq<ItemView>, query: Seq<char>) -> Seq<usize> {
    if query.len() == 0 {
        Seq::empty()
    } else {
        matches_upto(vars, lowercase(query), vars.len() as int)
    }
}


/// How many states the undo stack keeps at most.
pub const UNDO_LIMIT: usize = 50;

/// The editing state.
pub struct App {
    /// The entries being edited.
    pub vars: Vec<ConfigItem>,
    /// The position of the selected entry.
    pub selected: usize,
    /// The interaction mode.
    pub mode: Mode,
    /// Whether the main loop goes on.
    pub running: bool,
    /// A message for the status bar.
    pub status_message: Option<String>,
    /// The text being typed for the selected entry.
    pub input: TextInput,
    /// The current search query.
    pub search_query: String,
    /// Earlier states of the entries, the most recent last.
    pub undo_stack: Vec<Vec<ConfigItem>>,
    /// States left by undo, the most recent last; a new save clears them.
    pub redo_stack: Vec<Vec<ConfigItem>>,
}

/// The text an entry shows for editing: its value, or nothing.
pub open spec fn shown_text(v: ItemView) -> Seq<char> {
    match v.value {
        Some(s) => s,
        None => Seq::empty(),
    }
}

/// The mathematical form of the undo stack.
pub open spec fn stack_view(s: Seq<Vec<ConfigItem>>) -> Seq<Seq<ItemView>> {
    s.map_values(|v: Vec<ConfigItem>| items_view(v@))
}

/// The undo stack after `vars` is saved on it: pushed, with the oldest
/// state dropped once more than the limit are kept.
pub open spec fn stack_after_save(stack: Seq<Seq<ItemView>>, vars: Seq<ItemView>) -> Seq<Seq<ItemView>> {
    if stack.len() + 1 > UNDO_LIMIT {
        stack.push(vars).drop_first()
    } else {
        stack.push(vars)
    }
}

/// The selection after the entries change to `n` of them: kept when it
/// still points at an entry (or there is none), else moved to the last one.
pub open spec fn clamp_selection(sel: usize, n: nat) -> usize {
    if sel >= n && n > 0 {
        (n - 1) as usize
    } else {
        sel
    }
}

/// The first matching position after `sel`, or else the first matching
/// position; none when nothing matches.
pub open spec fn next_match_target(vars: Seq<ItemView>, query: Seq<char>, sel: usize) -> Option<usize> {
    let m = search_matches(vars, query);
    if m.len() == 0 {
        None
    } else if exists|k: int| 0 <= k < m.len() && m[k] > sel {
        Some(m[choose|k: int| 0 <= k < m.len() && m[k] > sel && forall|j: int| 0 <= j < k ==> m[j] <= sel])
    } else {
        Some(m[0])
    }
}

/// The last matching position before `sel`, or else the last matching
/// position; none when nothing matches.
pub open spec fn previous_match_target(vars: Seq<ItemView>, query: Seq<char>, sel: usize) -> Option<usize> {
    let m = search_matches(vars, query);
    if m.len() == 0 {
        None
    } else if exists|k: int| 0 <= k < m.len() && m[k] < sel {
        Some(m[choose|k: int| 0 <= k < m.len() && m[k] < sel && forall|j: int| k < j < m.len() ==> m[j] >= sel])
    } else {
        Some(m[m.len() - 1])
    }
}

impl App {
    /// The selection moved to the next entry, from the last back to the first.
    pub open spec fn moved_down_from(self, b: App) -> bool {
        &&& self.selected == (if b.vars@.len() > 0 {
            ((b.selected + 1) % (b.vars@.len() as int)) as usize
        } else {
            b.selected
        })
        &&& self.input_synced(b.input)
        &&& self.vars == b.vars
        &&& self.mode == b.mode
        &&& self.status_message == b.status_message
        &&& self.search_query == b.search_query
        &&& self.undo_stack == b.undo_stack
        &&& self.redo_stack == b.redo_stack
        &&& self.running == b.running
    }

    /// The selection moved to the previous entry, from the first back to the last.
    pub open spec fn moved_up_from(self, b: App) -> bool {
        &&& self.selected == (if b.vars@.len() > 0 {
            if b.selected == 0 {
                (b.vars@.len() - 1) as usize
            } else {
                (b.selected - 1) as usize
            }
        } else {
            b.selected
        })
        &&& self.input_synced(b.input)
        &&& self.vars == b.vars
        &&& self.mode == b.mode
        &&& self.status_message == b.status_message
        &&& self.search_query == b.search_query
        &&& self.undo_stack == b.undo_stack
        &&& self.redo_stack == b.redo_stack
        &&& self.running == b.running
    }

    /// The first entry is selected.
    pub open spec fn moved_to_top_from(self, b: App) -> bool {
        &&& self.selected == (if b.vars@.len() > 0 {
            0
        } else {
            b.selected
        })
        &&& self.input_synced(b.input)
        &&& self.vars == b.vars
        &&& self.mode == b.mode
        &&& self.status_message == b.status_message
        &&& self.undo_stack == b.undo_stack
        &&& self.redo_stack == b.redo_stack
        &&& self.search_query == b.search_query
        &&& self.running == b.running
    }

    /// The last entry is selected.
    pub open spec fn moved_to_bottom_from(self, b: App) -> bool {
        &&& self.selected == (if b.vars@.len() > 0 {
            (b.vars@.len() - 1) as usize
        } else {
            b.selected
        })
        &&& self.input_synced(b.input)
        &&& self.vars == b.vars
        &&& self.mode == b.mode
        &&& self.status_message == b.status_message
        &&& self.undo_stack == b.undo_stack
        &&& self.redo_stack == b.redo_stack
        &&& self.search_query == b.search_query
        &&& self.running == b.running
    }

    /// The first matching entry after the selection, or else the first matching entry, is selected;
    /// nothing changed when nothing matches.
    pub open spec fn moved_to_next_match_from(self, b: App) -> bool {
        &&& match next_match_target(items_view(b.vars@), b.search_query@, b.selected) {
            Some(t) => self.selected == t && self.input_synced(b.input),
            None => self.selected == b.selected && self.input == b.input,
        }
        &&& self.vars == b.vars
        &&& self.mode == b.mode
        &&& self.search_query == b.search_query
        &&& self.undo_stack == b.undo_stack
        &&& self.redo_stack == b.redo_stack
        &&& self.status_message == b.status_message
        &&& self.running == b.running
    }

    /// The last matching entry before the selection, or else the last matching entry, is selected;
    /// nothing changed when nothing matches.
    pub open spec fn moved_to_previous_match_from(self, b: App) -> bool {
        &&& match previous_match_target(items_view(b.vars@), b.search_query@, b.selected) {
            Some(t) => self.selected == t && self.input_synced(b.input),
            None => self.selected == b.selected && self.input == b.input,
        }
        &&& self.vars == b.vars
        &&& self.mode == b.mode
        &&& self.search_query == b.search_query
        &&& self.undo_stack == b.undo_stack
        &&& self.redo_stack == b.redo_stack
        &&& self.status_message == b.status_message
        &&& self.running == b.running
    }

    /// Typing ended: the input was stored into the selected entry (unless it
    /// is a group, see `commit_input`), in normal mode.
    pub open spec fn normal_entered_from(self, b: App) -> bool {
        if b.mode == Mode::InsertKey {
            self.key_committed_from(b)
        } else {
            self.value_committed_from(b)
        }
    }

    /// The typed value was stored in the selected entry (groups are left
    /// alone), and the mode is normal.
    pub open spec fn value_committed_from(self, b: App) -> bool {
        &&& ({
            let sel = b.selected as int;
            if 0 <= sel < b.vars@.len() && !b.vars@[sel].is_group {
                items_view(self.vars@) == items_view(b.vars@).update(
                    sel,
                    ItemView { value: Some(b.input.text()), status: ItemStatus::Modified, ..b.vars@[sel]@ },
                )
            } else {
                items_view(self.vars@) == items_view(b.vars@)
            }
        })
        &&& self.mode == Mode::Normal
        &&& self.selected == b.selected
        &&& self.input == b.input
        &&& self.undo_stack == b.undo_stack
        &&& self.redo_stack == b.redo_stack
        &&& self.status_message == b.status_message
        &&& self.search_query == b.search_query
        &&& self.running == b.running
    }

    /// Typing was abandoned: normal mode, and the input shows the selected
    /// entry's stored value again.
    pub open spec fn insert_cancelled_from(self, b: App) -> bool {
        &&& self.mode == Mode::Normal
        &&& self.input_synced(b.input)
        &&& self.vars == b.vars
        &&& self.selected == b.selected
        &&& self.undo_stack == b.undo_stack
        &&& self.redo_stack == b.redo_stack
        &&& self.status_message == b.status_message
        &&& self.search_query == b.search_query
        &&& self.running == b.running
    }

    /// Typing started for the selected entry as `variant` asks; on a group,
    /// the start variant types a new key instead (see `key_entry_from`) and
    /// the others do nothing.
    pub open spec fn insert_entered_from(self, b: App, variant: InsertVariant) -> bool {
        let sel = b.selected as int;
        if 0 <= sel < b.vars@.len() && b.vars@[sel].is_group && variant == InsertVariant::Start {
            self.key_entry_from(b)
        } else {
            self.value_entry_from(b, variant)
        }
    }

    /// Typing a value started for the selected entry as `variant` asks,
    /// unless it is a group.
    pub open spec fn value_entry_from(self, b: App, variant: InsertVariant) -> bool {
        &&& ({
            let sel = b.selected as int;
            if 0 <= sel < b.vars@.len() && !b.vars@[sel].is_group {
                &&& self.redo_stack@.len() == 0
                &&& stack_view(self.undo_stack@) == stack_after_save(
                    stack_view(b.undo_stack@),
                    items_view(b.vars@),
                )
                &&& self.mode == Mode::Insert
                &&& match variant {
                    InsertVariant::Start => self.input.text() == b.input.text()
                        && self.input.cursor_at() == 0,
                    InsertVariant::End => self.input.text() == b.input.text()
                        && self.input.cursor_at() == b.input.text().len(),
                    InsertVariant::Substitute => self.input.text() == Seq::<char>::empty()
                        && self.input.cursor_at() == 0,
                }
            } else {
                &&& self.undo_stack == b.undo_stack
                &&& self.redo_stack == b.redo_stack
                &&& self.mode == b.mode
                &&& self.input == b.input
            }
        })
        &&& self.vars == b.vars
        &&& self.selected == b.selected
        &&& self.status_message == b.status_message
        &&& self.search_query == b.search_query
        &&& self.running == b.running
    }

    /// The most recently saved entries were restored (or there were none to restore), and the
    /// status says which.
    pub open spec fn undone_from(self, b: App) -> bool {
        &&& b.undo_stack@.len() > 0 ==> {
            &&& items_view(self.vars@) == items_view(b.undo_stack@.last()@)
            &&& stack_view(self.undo_stack@) == stack_view(b.undo_stack@).drop_last()
            &&& stack_view(self.redo_stack@) == stack_view(b.redo_stack@).push(items_view(b.vars@))
            &&& self.selected == clamp_selection(b.selected, self.vars@.len())
            &&& self.input_synced(b.input)
            &&& opt_view(self.status_message) == Some("Undo applied"@)
        }
        &&& b.undo_stack@.len() == 0 ==> {
            &&& self.vars == b.vars
            &&& stack_view(self.undo_stack@) == stack_view(b.undo_stack@)
            &&& self.redo_stack == b.redo_stack
            &&& self.selected == b.selected
            &&& self.input == b.input
            &&& opt_view(self.status_message) == Some("Nothing to undo"@)
        }
        &&& self.mode == b.mode
        &&& self.search_query == b.search_query
        &&& self.running == b.running
    }

    /// The most recently undone entries were brought back, and the entries
    /// before are saved for undo again (or there was nothing to redo); the
    /// status says which.
    pub open spec fn redone_from(self, b: App) -> bool {
        &&& b.redo_stack@.len() > 0 ==> {
            &&& items_view(self.vars@) == items_view(b.redo_stack@.last()@)
            &&& stack_view(self.redo_stack@) == stack_view(b.redo_stack@).drop_last()
            &&& stack_view(self.undo_stack@) == stack_view(b.undo_stack@).push(items_view(b.vars@))
            &&& self.selected == clamp_selection(b.selected, self.vars@.len())
            &&& self.input_synced(b.input)
            &&& opt_view(self.status_message) == Some("Redo applied"@)
        }
        &&& b.redo_stack@.len() == 0 ==> {
            &&& self.vars == b.vars
            &&& self.undo_stack == b.undo_stack
            &&& self.redo_stack@ == b.redo_stack@
            &&& self.selected == b.selected
            &&& self.input == b.input
            &&& opt_view(self.status_message) == Some("Nothing to redo"@)
        }
        &&& self.mode == b.mode
        &&& self.search_query == b.search_query
        &&& self.running == b.running
    }

    /// The selected entry was deleted, with what lies below it (see `delete_selected`).
    pub open spec fn deleted_from(self, b: App) -> bool {
        &&& b.vars@.len() == 0 ==> {
            &&& self.vars == b.vars
            &&& self.undo_stack == b.undo_stack
            &&& self.redo_stack == b.redo_stack
            &&& self.selected == b.selected
            &&& self.input == b.input
        }
        &&& b.vars@.len() > 0 ==> {
            let iv = items_view(b.vars@);
            &&& items_view(self.vars@) == after_delete(iv, b.selected as int, iv.len() as int)
            &&& self.redo_stack@.len() == 0
            &&& stack_view(self.undo_stack@) == stack_after_save(stack_view(b.undo_stack@), iv)
            &&& self.selected == clamp_selection(b.selected, self.vars@.len())
            &&& self.input_synced(b.input)
        }
        &&& self.mode == b.mode
        &&& self.status_message == b.status_message
        &&& self.search_query == b.search_query
        &&& self.running == b.running
    }

    /// An element was added to the selected element's array (see `add_array_item`).
    pub open spec fn item_added_from(self, b: App, after: bool) -> bool {
        &&& ({
            let iv = items_view(b.vars@);
            let sel = b.selected as int;
            let st = stack_view(b.undo_stack@);
            if iv.len() == 0 {
                &&& self.vars == b.vars
                &&& self.undo_stack == b.undo_stack
                &&& self.redo_stack == b.redo_stack
                &&& self.selected == b.selected
                &&& self.input == b.input
                &&& self.mode == b.mode
                &&& self.status_message == b.status_message
            } else if iv[sel].is_group || iv[sel].path.len() == 0 || !(iv[sel].path.last() is Index) {
                &&& self.vars == b.vars
                &&& self.redo_stack@.len() == 0
                &&& stack_view(self.undo_stack@) == stack_after_save(st, iv)
                &&& self.selected == b.selected
                &&& self.input == b.input
                &&& self.mode == b.mode
                &&& self.status_message == b.status_message
            } else {
                let idx = iv[sel].path.last()->Index_0;
                let base = iv[sel].path.drop_last();
                let new_idx: usize = if after {
                    (idx + 1) as usize
                } else {
                    idx
                };
                let pos: usize = if after {
                    (sel + 1) as usize
                } else {
                    sel as usize
                };
                let shifted = iv.map_values(|v: ItemView| shifted_for_insert(v, base, new_idx as nat));
                let result = shifted.insert(pos as int, new_element(base, new_idx, iv[sel].depth));
                &&& items_view(self.vars@) == result
                &&& self.redo_stack@.len() == 0
                &&& stack_view(self.undo_stack@) == stack_after_save(stack_after_save(st, iv), result)
                &&& self.selected == pos
                &&& self.mode == Mode::Insert
                &&& self.input.text() == Seq::<char>::empty()
                &&& self.input.cursor_at() == 0
                &&& self.status_message is None
            }
        })
        &&& self.search_query == b.search_query
        &&& self.running == b.running
    }
}

/// The entry `v` after the entry at path `p` is renamed to `name`: it and
/// everything below it take the new key in that step of their paths; the
/// entry itself takes the new key and is marked modified.
pub open spec fn renamed(v: ItemView, p: Seq<SegmentView>, name: Seq<char>) -> ItemView {
    if p.len() > 0 && path_has_prefix(v.path, p) {
        let np = v.path.update(p.len() - 1, SegmentView::Key(name));
        if v.path.len() == p.len() {
            ItemView { path: np, key: name, status: ItemStatus::Modified, ..v }
        } else {
            ItemView { path: np, ..v }
        }
    } else {
        v
    }
}

/// The entry `v` turned from a group into a value (an empty text) or from
/// a value into a group (without a value), and marked modified.
pub open spec fn toggled(v: ItemView) -> ItemView {
    if v.is_group {
        ItemView {
            is_group: false,
            value: Some(Seq::empty()),
            value_type: ValueType::String,
            status: ItemStatus::Modified,
            ..v
        }
    } else {
        ItemView { is_group: true, value: None, value_type: ValueType::Null, status: ItemStatus::Modified, ..v }
    }
}

/// Whether some entry lies below path `p`.
pub open spec fn has_entries_below(iv: Seq<ItemView>, p: Seq<SegmentView>) -> bool {
    exists|j: int| 0 <= j < iv.len() && (#[trigger] iv[j]).path.len() > p.len() && path_has_prefix(iv[j].path, p)
}

/// Whether the entry at `sel` can be renamed: it exists and its path ends
/// with a key (an array index cannot be renamed).
pub open spec fn renamable(iv: Seq<ItemView>, sel: int) -> bool {
    0 <= sel < iv.len() && iv[sel].path.len() > 0 && iv[sel].path.last() is Key
}

/// Whether renaming the entry at path `p` to `name` would clash: the name
/// is empty, or another entry already has the new path.
pub open spec fn name_clashes(iv: Seq<ItemView>, p: Seq<SegmentView>, name: Seq<char>) -> bool {
    let np = p.update(p.len() - 1, SegmentView::Key(name));
    name.len() == 0 || (np != p && exists|j: int| 0 <= j < iv.len() && (#[trigger] iv[j]).path == np)
}

impl App {
    /// The selected entry was toggled between group and value (see
    /// `toggled`), after the entries were saved for undo; a group with
    /// entries below it is refused with a message.
    pub open spec fn toggled_from(self, b: App) -> bool {
        let iv = items_view(b.vars@);
        let sel = b.selected as int;
        &&& if 0 <= sel < iv.len() && !(iv[sel].is_group && has_entries_below(iv, iv[sel].path)) {
            &&& items_view(self.vars@) == iv.update(sel, toggled(iv[sel]))
            &&& self.redo_stack@.len() == 0
            &&& stack_view(self.undo_stack@) == stack_after_save(stack_view(b.undo_stack@), iv)
            &&& self.input_synced(b.input)
            &&& self.status_message == b.status_message
        } else {
            &&& self.vars == b.vars
            &&& self.undo_stack == b.undo_stack
            &&& self.redo_stack == b.redo_stack
            &&& self.input == b.input
            &&& if 0 <= sel < iv.len() {
                opt_view(self.status_message) == Some("Cannot turn a group with entries into a value"@)
            } else {
                self.status_message == b.status_message
            }
        }
        &&& self.selected == b.selected
        &&& self.mode == b.mode
        &&& self.search_query == b.search_query
        &&& self.running == b.running
    }
}

impl App {
    /// An entry was added next to the selected one. For a child of a
    /// selected group (`as_child`), or a sibling of an entry whose path ends
    /// with a key, a new entry with an empty key (see `new_keyed`) is put
    /// after everything below the selected entry (`after`) or right before
    /// it (or, for a child, right after the group), selected, and named in
    /// rename mode; the entries are saved for undo first. Otherwise the
    /// array element rules apply (see `item_added_from`).
    pub open spec fn entry_added_from(self, b: App, after: bool, is_group: bool, as_child: bool) -> bool {
        let iv = items_view(b.vars@);
        let sel = b.selected as int;
        if iv.len() > 0 && adds_keyed(iv, sel, as_child) {
            let child = as_child && iv[sel].is_group;
            let p = iv[sel].path;
            let parent = if child {
                p
            } else {
                p.drop_last()
            };
            let d = iv[sel].depth;
            let depth: usize = if child && d < usize::MAX {
                (d + 1) as usize
            } else {
                d
            };
            let pos = if after {
                subtree_end(iv, p, sel + 1)
            } else if child {
                sel + 1
            } else {
                sel
            };
            &&& items_view(self.vars@) == iv.insert(pos, new_keyed(parent, depth, is_group))
            &&& self.redo_stack@.len() == 0
            &&& stack_view(self.undo_stack@) == stack_after_save(stack_view(b.undo_stack@), iv)
            &&& self.selected == pos
            &&& self.mode == Mode::InsertKey
            &&& self.input.text() == Seq::<char>::empty()
            &&& self.input.cursor_at() == 0
            &&& self.status_message == b.status_message
            &&& self.search_query == b.search_query
            &&& self.running == b.running
        } else {
            self.item_added_from(b, after)
        }
    }
}

impl App {
    /// Typing a new key started for the selected entry: the entries are saved
    /// for undo, the mode is rename, and the input holds the key with the
    /// cursor at its end. An array element is refused with a message.
    pub open spec fn key_entry_from(self, b: App) -> bool {
        let iv = items_view(b.vars@);
        let sel = b.selected as int;
        &&& if renamable(iv, sel) {
            &&& self.redo_stack@.len() == 0
            &&& stack_view(self.undo_stack@) == stack_after_save(stack_view(b.undo_stack@), iv)
            &&& self.mode == Mode::InsertKey
            &&& self.input.text() == iv[sel].key
            &&& self.input.cursor_at() == iv[sel].key.len()
            &&& self.status_message == b.status_message
        } else if 0 <= sel < iv.len() {
            &&& self.undo_stack == b.undo_stack
            &&& self.redo_stack == b.redo_stack
            &&& self.mode == b.mode
            &&& self.input == b.input
            &&& opt_view(self.status_message) == Some("Cannot rename array indices"@)
        } else {
            &&& self.undo_stack == b.undo_stack
            &&& self.redo_stack == b.redo_stack
            &&& self.mode == b.mode
            &&& self.input == b.input
            &&& self.status_message == b.status_message
        }
        &&& self.vars == b.vars
        &&& self.selected == b.selected
        &&& self.search_query == b.search_query
        &&& self.running == b.running
    }

    /// The typed key was committed: when it clashes (see `name_clashes`)
    /// nothing changes but a message; otherwise the entry and everything
    /// below it are renamed (see `renamed`), the mode is normal and the input
    /// shows the entry's value. Without a renamable entry, the mode is
    /// normal and nothing else changes.
    pub open spec fn key_committed_from(self, b: App) -> bool {
        let iv = items_view(b.vars@);
        let sel = b.selected as int;
        &&& if renamable(iv, sel) {
            let p = iv[sel].path;
            let name = b.input.text();
            if name_clashes(iv, p, name) {
                &&& self.vars == b.vars
                &&& self.mode == b.mode
                &&& self.input == b.input
                &&& opt_view(self.status_message) == Some(if name.len() == 0 {
                    "Key cannot be empty"@
                } else {
                    "Key already exists"@
                })
            } else {
                &&& items_view(self.vars@) == iv.map_values(|v: ItemView| renamed(v, p, name))
                &&& self.mode == Mode::Normal
                &&& self.input_synced(b.input)
                &&& self.status_message == b.status_message
            }
        } else {
            &&& self.vars == b.vars
            &&& self.mode == Mode::Normal
            &&& self.input == b.input
            &&& self.status_message == b.status_message
        }
        &&& self.selected == b.selected
        &&& self.undo_stack == b.undo_stack
        &&& self.redo_stack == b.redo_stack
        &&& self.search_query == b.search_query
        &&& self.running == b.running
    }
}

impl App {
    /// The input shows the selected entry's value with the cursor at its
    /// end (when the selection points at an entry).
    pub open spec fn input_synced(&self, before: TextInput) -> bool {
        if self.selected < self.vars@.len() {
            self.input.text() == shown_text(self.vars@[self.selected as int]@)
                && self.input.cursor_at() == self.input.text().len()
        } else {
            self.input == before
        }
    }

    /// An editing state for `vars`: the first entry selected, in normal
    /// mode, running, with the first entry's value in the input.
    pub fn new(vars: Vec<ConfigItem>) -> (app: Self)
        ensures
            items_view(app.vars@) == items_view(vars@),
            app.selected == 0,
            app.mode == Mode::Normal,
            app.running,
            app.status_message is None,
            app.input.text() == (if vars@.len() > 0 {
                shown_text(vars@[0]@)
            } else {
                Seq::empty()
            }),
            app.input.cursor_at() == app.input.text().len(),
            app.search_query@ == Seq::<char>::empty(),
            app.undo_stack@.len() == 0,
            app.redo_stack@.len() == 0,
    {
        let initial_input = if vars.len() > 0 {
            match &vars[0].value {
                Some(v) => v.clone(),
                None => String::new(),
            }
        } else {
            String::new()
        };
        App {
            vars,
            selected: 0,
            mode: Mode::Normal,
            running: true,
            status_message: None,
            input: TextInput::new(initial_input),
            search_query: String::new(),
            undo_stack: Vec::new(),
            redo_stack: Vec::new(),
        }
    }

    /// The positions of the entries that the search query matches, in order.
    pub fn matching_indices(&self) -> (r: Vec<usize>)
        ensures
            r@ == search_matches(items_view(self.vars@), self.search_query@),
    {
        let ghost iv = items_view(self.vars@);
        if self.search_query.as_str().is_empty() {
            return Vec::new();
        }
        let query = chars_of(to_lowercase(self.search_query.as_str()).as_str());
        let mut r: Vec<usize> = Vec::new();
        let mut i: usize = 0;
        while i < self.vars.len()
            invariant
                i <= self.vars@.len(),
                iv == items_view(self.vars@),
                query@ == lowercase(self.search_query@),
                r@ == matches_upto(iv, query@, i as int),
            decreases self.vars@.len() - i,
        {
            let key = chars_of(to_lowercase(self.vars[i].key.as_str()).as_str());
            assert(iv[i as int] == self.vars@[i as int]@);
            if contains_chars(&key, &query) {
                r.push(i);
            }
            i = i + 1;
        }
        r
    }

    /// Moves the selection to the next entry, from the last back to the first.
    pub fn next(&mut self)
        requires
            old(self).selected < usize::MAX,
        ensures
            final(self).moved_down_from(*old(self)),
    {
        if self.vars.len() > 0 {
            self.selected = (self.selected + 1) % self.vars.len();
            self.sync_input_with_selected();
        }
    }

    /// Moves the selection to the previous entry, from the first back to the last.
    pub fn previous(&mut self)
        ensures
            final(self).moved_up_from(*old(self)),
    {
        if self.vars.len() > 0 {
            if self.selected == 0 {
                self.selected = self.vars.len() - 1;
            } else {
                self.selected = self.selected - 1;
            }
            self.sync_input_with_selected();
        }
    }

    /// Selects the first entry.
    pub fn jump_top(&mut self)
        ensures
            final(self).moved_to_top_from(*old(self)),
    {
        if self.vars.len() > 0 {
            self.selected = 0;
            self.sync_input_with_selected();
        }
    }

    /// Selects the last entry.
    pub fn jump_bottom(&mut self)
        ensures
            final(self).moved_to_bottom_from(*old(self)),
    {
        if self.vars.len() > 0 {
            self.selected = self.vars.len() - 1;
            self.sync_input_with_selected();
        }
    }

    /// Selects the first matching entry after the selection, or else the
    /// first matching entry; nothing happens when nothing matches.
    pub fn jump_next_match(&mut self)
        ensures
            final(self).moved_to_next_match_from(*old(self)),
    {
        let indices = self.matching_indices();
        let ghost m = indices@;
        if indices.len() == 0 {
            return;
        }
        let mut k: usize = 0;
        while k < indices.len() && indices[k] <= self.selected
            invariant
                k <= indices@.len(),
                forall|j: int| 0 <= j < k ==> indices@[j] <= self.selected,
            decreases indices@.len() - k,
        {
            k = k + 1;
        }
        let target = if k < indices.len() {
            proof {
                let w = choose|q: int| 0 <= q < m.len() && m[q] > self.selected && forall|j: int|
                    0 <= j < q ==> m[j] <= self.selected;
                assert(0 <= k < m.len() && m[k as int] > self.selected && forall|j: int|
                    0 <= j < k ==> m[j] <= self.selected);
                if w < k {
                } else if w > k {
                    assert(m[k as int] <= self.selected);
                }
            }
            indices[k]
        } else {
            indices[0]
        };
        self.selected = target;
        self.sync_input_with_selected();
    }

    /// Selects the last matching entry before the selection, or else the
    /// last matching entry; nothing happens when nothing matches.
    pub fn jump_previous_match(&mut self)
        ensures
            final(self).moved_to_previous_match_from(*old(self)),
    {
        let indices = self.matching_indices();
        let ghost m = indices@;
        if indices.len() == 0 {
            return;
        }
        let mut k: usize = indices.len();
        while k > 0 && indices[k - 1] >= self.selected
            invariant
                k <= indices@.len(),
                forall|j: int| k <= j < indices@.len() ==> indices@[j] >= self.selected,
            decreases k,
        {
            k = k - 1;
        }
        let target = if k > 0 {
            proof {
                let w = choose|q: int| 0 <= q < m.len() && m[q] < self.selected && forall|j: int|
                    q < j < m.len() ==> m[j] >= self.selected;
                assert(0 <= k - 1 < m.len() && m[k - 1] < self.selected && forall|j: int|
                    k - 1 < j < m.len() ==> m[j] >= self.selected);
                if w < k - 1 {
                    assert(m[k - 1] >= self.selected);
                } else if w > k - 1 {
                }
            }
            indices[k - 1]
        } else {
            indices[indices.len() - 1]
        };
        self.selected = target;
        self.sync_input_with_selected();
    }

    /// Puts the selected entry's value (or nothing) into the input, with the
    /// cursor at its end.
    pub fn sync_input_with_selected(&mut self)
        ensures
            final(self).input_synced(old(self).input),
            final(self).vars == old(self).vars,
            final(self).selected == old(self).selected,
            final(self).mode == old(self).mode,
            final(self).status_message == old(self).status_message,
            final(self).search_query == old(self).search_query,
            final(self).undo_stack == old(self).undo_stack,
            final(self).redo_stack == old(self).redo_stack,
            final(self).running == old(self).running,
    {
        if self.selected < self.vars.len() {
            let val = match &self.vars[self.selected].value {
                Some(v) => v.clone(),
                None => String::new(),
            };
            self.input = TextInput::new(val);
        }
    }

    /// Stores the input as the selected entry's value and marks the entry
    /// modified (groups have no value and are left alone).
    pub fn commit_input(&mut self)
        ensures
            ({
                let sel = old(self).selected as int;
                if 0 <= sel < old(self).vars@.len() && !old(self).vars@[sel].is_group {
                    items_view(final(self).vars@) == items_view(old(self).vars@).update(
                        sel,
                        ItemView {
                            value: Some(old(self).input.text()),
                            status: ItemStatus::Modified,
                            ..old(self).vars@[sel]@
                        },
                    )
                } else {
                    items_view(final(self).vars@) == items_view(old(self).vars@)
                }
            }),
            final(self).selected == old(self).selected,
            final(self).input == old(self).input,
            final(self).mode == old(self).mode,
            final(self).status_message == old(self).status_message,
            final(self).undo_stack == old(self).undo_stack,
            final(self).redo_stack == old(self).redo_stack,
            final(self).search_query == old(self).search_query,
            final(self).running == old(self).running,
    {
        if self.selected < self.vars.len() && !self.vars[self.selected].is_group {
            let mut var = self.vars.remove(self.selected);
            var.value = Some(String::from_str(self.input.value()));
            var.status = ItemStatus::Modified;
            let ghost vv = var@;
            self.vars.insert(self.selected, var);
            assert(items_view(self.vars@) =~= items_view(old(self).vars@).update(self.selected as int, vv));
        }
    }

    /// Saves the entries on the undo stack, dropping the oldest saved state
    /// once more than the limit are kept.
    pub fn save_undo_state(&mut self)
        ensures
            stack_view(final(self).undo_stack@) == stack_after_save(
                stack_view(old(self).undo_stack@),
                items_view(old(self).vars@),
            ),
            final(self).redo_stack@.len() == 0,
            final(self).vars == old(self).vars,
            final(self).selected == old(self).selected,
            final(self).input == old(self).input,
            final(self).mode == old(self).mode,
            final(self).status_message == old(self).status_message,
            final(self).search_query == old(self).search_query,
            final(self).running == old(self).running,
    {
        self.redo_stack = Vec::new();
        let copy = crate::format::clone_items(&self.vars);
        let ghost cv = items_view(copy@);
        self.undo_stack.push(copy);
        assert(stack_view(self.undo_stack@) =~= stack_view(old(self).undo_stack@).push(cv));
        if self.undo_stack.len() > UNDO_LIMIT {
            self.undo_stack.remove(0);
            assert(stack_view(self.undo_stack@) =~= stack_view(old(self).undo_stack@).push(cv).drop_first());
        }
    }

    /// Enters typing for the selected entry: the entries are saved for undo,
    /// the mode becomes insert and the cursor goes to the start, to the end,
    /// or onto an emptied input. On a group, the start variant types a new
    /// key for it (rename mode), and the others do nothing.
    pub fn enter_insert(&mut self, variant: InsertVariant)
        ensures
            final(self).insert_entered_from(*old(self), variant),
    {
        if self.selected < self.vars.len() && self.vars[self.selected].is_group && variant == InsertVariant::Start {
            self.enter_insert_key();
        } else if self.selected < self.vars.len() && !self.vars[self.selected].is_group {
            self.save_undo_state();
            self.mode = Mode::Insert;
            match variant {
                InsertVariant::Start => {
                    self.input.go_to_start();
                },
                InsertVariant::End => {
                    self.input.go_to_end();
                },
                InsertVariant::Substitute => {
                    self.input = TextInput::new(String::new());
                },
            }
        }
    }

    /// Stores the input and returns to normal mode; in rename mode the typed
    /// key is committed instead (see `commit_key`).
    pub fn enter_normal(&mut self)
        ensures
            final(self).normal_entered_from(*old(self)),
    {
        if self.mode == Mode::InsertKey {
            self.commit_key();
        } else {
            self.commit_input();
            self.mode = Mode::Normal;
        }
    }

    /// Toggles the selected entry between group and value (see `toggled_from`).
    pub fn toggle_group_selected(&mut self)
        ensures
            final(self).toggled_from(*old(self)),
    {
        let ghost iv = items_view(self.vars@);
        if self.selected < self.vars.len() {
            let sel = self.selected;
            assert(iv[sel as int] == self.vars@[sel as int]@);
            if self.vars[sel].is_group && entries_below(&self.vars, &self.vars[sel].path) {
                self.status_message = Some(String::from_str("Cannot turn a group with entries into a value"));
                return;
            }
            self.save_undo_state();
            let mut v = self.vars.remove(sel);
            if v.is_group {
                v.is_group = false;
                v.value = Some(String::new());
                v.value_type = ValueType::String;
            } else {
                v.is_group = true;
                v.value = None;
                v.value_type = ValueType::Null;
            }
            v.status = ItemStatus::Modified;
            let ghost vv = v@;
            self.vars.insert(sel, v);
            proof {
                assert(vv == toggled(iv[sel as int]));
                assert(items_view(self.vars@) =~= iv.update(sel as int, vv));
            }
            self.sync_input_with_selected();
        }
    }

    /// Adds an entry next to the selected one (see `entry_added_from`).
    pub fn add_item(&mut self, after: bool, is_group: bool, as_child: bool)
        requires
            old(self).vars@.len() == 0 || old(self).selected < old(self).vars@.len(),
            indices_below_max(items_view(old(self).vars@)),
        ensures
            final(self).entry_added_from(*old(self), after, is_group, as_child),
    {
        if self.vars.len() == 0 {
            self.add_array_item(after);
            return;
        }
        let ghost iv = items_view(self.vars@);
        let sel = self.selected;
        assert(iv[sel as int] == self.vars@[sel as int]@);
        let child = as_child && self.vars[sel].is_group;
        let plen = self.vars[sel].path.len();
        let keyed_last = plen > 0 && match &self.vars[sel].path[plen - 1] {
            PathSegment::Key(_) => true,
            PathSegment::Index(_) => false,
        };
        if !(child || keyed_last) {
            self.add_array_item(after);
            return;
        }
        let p = clone_path(&self.vars[sel].path);
        let ghost pv = path_view(p@);
        let parent = if child {
            clone_path(&p)
        } else {
            crate::format::path_prefix(&p, plen - 1)
        };
        assert(child ==> path_view(parent@) == pv);
        assert(!child ==> path_view(parent@) =~= pv.drop_last());
        let d = self.vars[sel].depth;
        let depth = if child && d < usize::MAX {
            d + 1
        } else {
            d
        };
        let pos = if after {
            let mut j = sel + 1;
            while j < self.vars.len() && self.vars[j].path.len() > plen && path_starts_with(
                self.vars[j].path.as_slice(),
                p.as_slice(),
            )
                invariant
                    sel < j <= self.vars@.len(),
                    iv == items_view(self.vars@),
                    pv == path_view(p@),
                    plen == p@.len(),
                    subtree_end(iv, pv, sel + 1) == subtree_end(iv, pv, j as int),
                decreases self.vars@.len() - j,
            {
                assert(iv[j as int] == self.vars@[j as int]@);
                j = j + 1;
            }
            proof {
                if j < self.vars@.len() {
                    assert(iv[j as int] == self.vars@[j as int]@);
                }
            }
            j
        } else if child {
            sel + 1
        } else {
            sel
        };
        self.save_undo_state();
        let mut path = parent;
        let ghost parent_v = path_view(path@);
        path.push(PathSegment::Key(String::new()));
        assert(path_view(path@) =~= parent_v.push(SegmentView::Key(Seq::empty())));
        let item = ConfigItem {
            key: String::new(),
            path,
            value: if is_group {
                None
            } else {
                Some(String::new())
            },
            template_value: None,
            default_value: None,
            depth,
            is_group,
            status: ItemStatus::Modified,
            value_type: if is_group {
                ValueType::Null
            } else {
                ValueType::String
            },
        };
        let ghost nv = item@;
        self.vars.insert(pos, item);
        assert(items_view(self.vars@) =~= iv.insert(pos as int, nv));
        self.selected = pos;
        self.mode = Mode::InsertKey;
        self.input = TextInput::new(String::new());
    }

    /// Starts typing a new key for the selected entry (see `key_entry_from`).
    pub fn enter_insert_key(&mut self)
        ensures
            final(self).key_entry_from(*old(self)),
    {
        if self.selected < self.vars.len() {
            let n = self.vars[self.selected].path.len();
            let keyed = n > 0 && match &self.vars[self.selected].path[n - 1] {
                PathSegment::Key(_) => true,
                PathSegment::Index(_) => false,
            };
            assert(self.vars@[self.selected as int]@.path == path_view(self.vars@[self.selected as int].path@));
            if keyed {
                self.save_undo_state();
                self.mode = Mode::InsertKey;
                let key = self.vars[self.selected].key.clone();
                self.input = TextInput::new(key);
            } else {
                self.status_message = Some(String::from_str("Cannot rename array indices"));
            }
        }
    }

    /// Commits the typed key (see `key_committed_from`).
    pub fn commit_key(&mut self)
        ensures
            final(self).key_committed_from(*old(self)),
    {
        let ghost iv = items_view(self.vars@);
        if self.selected < self.vars.len() {
            let p = clone_path(&self.vars[self.selected].path);
            let n = p.len();
            let keyed = n > 0 && match &p[n - 1] {
                PathSegment::Key(_) => true,
                PathSegment::Index(_) => false,
            };
            assert(iv[self.selected as int] == self.vars@[self.selected as int]@);
            if keyed {
                let name = String::from_str(self.input.value());
                let ghost pv = path_view(p@);
                if name.as_str().is_empty() {
                    self.status_message = Some(String::from_str("Key cannot be empty"));
                    return;
                }
                let mut np = clone_path(&p);
                np.set(n - 1, PathSegment::Key(name.clone()));
                assert(path_view(np@) =~= pv.update(n - 1, SegmentView::Key(name@)));
                if !crate::format::path_eq(np.as_slice(), p.as_slice()) {
                    match crate::format::find_path(&self.vars, &np) {
                        Some(j) => {
                            assert(iv[j as int].path == path_view(np@));
                            self.status_message = Some(String::from_str("Key already exists"));
                            return;
                        },
                        None => {},
                    }
                }
                proof {
                    if path_view(np@) != pv {
                        assert(!crate::format::has_path(iv, path_view(np@)));
                        assert(!exists|j: int| 0 <= j < iv.len() && (#[trigger] iv[j]).path == path_view(np@));
                    }
                    assert(!name_clashes(iv, pv, name@));
                }
                let mut out: Vec<ConfigItem> = Vec::new();
                let mut i: usize = 0;
                while i < self.vars.len()
                    invariant
                        i <= self.vars@.len(),
                        iv == items_view(self.vars@),
                        n == p@.len(),
                        n > 0,
                        pv == path_view(p@),
                        items_view(out@) == iv.take(i as int).map_values(|v: ItemView| renamed(v, pv, name@)),
                    decreases self.vars@.len() - i,
                {
                    let r = rename_item(&self.vars[i], &p, &name);
                    let ghost before = items_view(out@);
                    out.push(r);
                    proof {
                        assert(iv[i as int] == self.vars@[i as int]@);
                        assert(items_view(out@) =~= before.push(renamed(iv[i as int], pv, name@)));
                        assert(iv.take(i + 1).map_values(|v: ItemView| renamed(v, pv, name@))
                            =~= iv.take(i as int).map_values(|v: ItemView| renamed(v, pv, name@)).push(renamed(iv[i as int], pv, name@)));
                    }
                    i = i + 1;
                }
                assert(iv.take(iv.len() as int) =~= iv);
                self.vars = out;
                self.mode = Mode::Normal;
                self.sync_input_with_selected();
                return;
            }
        }
        self.mode = Mode::Normal;
    }

    /// Abandons typing: back to normal mode, with the selected entry's stored
    /// value in the input again.
    pub fn cancel_insert(&mut self)
        ensures
            final(self).insert_cancelled_from(*old(self)),
    {
        self.mode = Mode::Normal;
        self.sync_input_with_selected();
    }

    /// Whether no entry's path holds the index `usize::MAX`.
    pub fn indices_below_limit(&self) -> (r: bool)
        ensures
            r == indices_below_max(items_view(self.vars@)),
    {
        let ghost iv = items_view(self.vars@);
        let mut i: usize = 0;
        while i < self.vars.len()
            invariant
                i <= self.vars@.len(),
                iv == items_view(self.vars@),
                forall|a: int, k: int|
                    0 <= a < i && 0 <= k < iv[a].path.len() ==> (#[trigger] iv[a].path[k] matches SegmentView::Index(n) ==> n < usize::MAX),
            decreases self.vars@.len() - i,
        {
            let p = &self.vars[i].path;
            assert(iv[i as int].path == path_view(p@));
            let mut k: usize = 0;
            while k < p.len()
                invariant
                    k <= p@.len(),
                    i < self.vars@.len(),
                    iv == items_view(self.vars@),
                    iv[i as int].path == path_view(p@),
                    forall|q: int| 0 <= q < k ==> (#[trigger] iv[i as int].path[q] matches SegmentView::Index(n) ==> n < usize::MAX),
                decreases p@.len() - k,
            {
                if let PathSegment::Index(n) = &p[k] {
                    if *n == usize::MAX {
                        assert(iv[i as int].path[k as int] == SegmentView::Index(*n));
                        return false;
                    }
                }
                k = k + 1;
            }
            i = i + 1;
        }
        true
    }

    /// Whether the selected entry is a group.
    pub fn selected_is_group(&self) -> (r: bool)
        ensures
            r == (self.selected < self.vars@.len() && self.vars@[self.selected as int].is_group),
    {
        self.selected < self.vars.len() && self.vars[self.selected].is_group
    }

    /// Whether the selected entry is a leaf whose path ends with an index.
    pub fn selected_is_array(&self) -> (r: bool)
        ensures
            r == (self.selected < self.vars@.len() && {
                let v = self.vars@[self.selected as int]@;
                !v.is_group && v.path.len() > 0 && v.path.last() is Index
            }),
    {
        if self.selected < self.vars.len() {
            let v = &self.vars[self.selected];
            if v.is_group || v.path.len() == 0 {
                return false;
            }
            match &v.path[v.path.len() - 1] {
                crate::format::PathSegment::Index(_) => true,
                _ => false,
            }
        } else {
            false
        }
    }

    /// Whether the selected entry is missing from the active configuration.
    pub fn selected_is_missing(&self) -> (r: bool)
        ensures
            r == (self.selected < self.vars@.len() && self.vars@[self.selected as int].status
                == ItemStatus::MissingFromActive),
    {
        self.selected < self.vars.len() && self.vars[self.selected].status
            == ItemStatus::MissingFromActive
    }

    /// Restores the most recently saved entries (keeping the selection on an
    /// entry) and says so; says that there is nothing to undo otherwise.
    pub fn undo(&mut self)
        ensures
            final(self).undone_from(*old(self)),
    {
        let ghost st = stack_view(self.undo_stack@);
        let ghost rt = stack_view(self.redo_stack@);
        match self.undo_stack.pop() {
            Some(previous_vars) => {
                assert(stack_view(self.undo_stack@) =~= st.drop_last());
                let mut current = previous_vars;
                std::mem::swap(&mut self.vars, &mut current);
                let ghost cv = items_view(current@);
                self.redo_stack.push(current);
                assert(stack_view(self.redo_stack@) =~= rt.push(cv));
                if self.selected >= self.vars.len() && self.vars.len() > 0 {
                    self.selected = self.vars.len() - 1;
                }
                self.sync_input_with_selected();
                self.status_message = Some(String::from_str("Undo applied"));
            },
            None => {
                self.status_message = Some(String::from_str("Nothing to undo"));
            },
        }
    }

    /// Brings back the most recently undone entries (see `redone_from`).
    pub fn redo(&mut self)
        ensures
            final(self).redone_from(*old(self)),
    {
        let ghost st = stack_view(self.undo_stack@);
        let ghost rt = stack_view(self.redo_stack@);
        match self.redo_stack.pop() {
            Some(next_vars) => {
                assert(stack_view(self.redo_stack@) =~= rt.drop_last());
                let mut current = next_vars;
                std::mem::swap(&mut self.vars, &mut current);
                let ghost cv = items_view(current@);
                self.undo_stack.push(current);
                assert(stack_view(self.undo_stack@) =~= st.push(cv));
                if self.selected >= self.vars.len() && self.vars.len() > 0 {
                    self.selected = self.vars.len() - 1;
                }
                self.sync_input_with_selected();
                self.status_message = Some(String::from_str("Redo applied"));
            },
            None => {
                self.status_message = Some(String::from_str("Nothing to redo"));
            },
        }
    }
}

/// Redoing right after an undo gives back the entries that the undo
/// replaced, and both stacks as they were before the undo.
pub proof fn law_redo_restores_undone(b: App, a: App, c: App)
    requires
        b.undo_stack@.len() > 0,
        a.undone_from(b),
        c.redone_from(a),
    ensures
        items_view(c.vars@) == items_view(b.vars@),
        stack_view(c.undo_stack@) == stack_view(b.undo_stack@),
        stack_view(c.redo_stack@) == stack_view(b.redo_stack@),
{
    let ra = stack_view(a.redo_stack@);
    assert(ra.len() == a.redo_stack@.len());
    assert(ra[ra.len() - 1] == items_view(a.redo_stack@.last()@));
    let sb = stack_view(b.undo_stack@);
    assert(sb[sb.len() - 1] == items_view(b.undo_stack@.last()@));
    assert(stack_view(c.undo_stack@) =~= sb);
    assert(stack_view(c.redo_stack@) =~= stack_view(b.redo_stack@));
}

proof fn lemma_after_delete_keeps(vars: Seq<ItemView>, sel: int, n: int, j: int)
    requires
        0 <= j < n <= vars.len(),
        !deleted_with(vars, sel, j),
    ensures
        after_delete(vars, sel, n).contains(reindexed_after_delete(vars[j], vars[sel].path)),
    decreases n,
{
    if j < n - 1 {
        lemma_after_delete_keeps(vars, sel, n - 1, j);
        let prev = after_delete(vars, sel, n - 1);
        let w = reindexed_after_delete(vars[j], vars[sel].path);
        let k = choose|k: int| 0 <= k < prev.len() && prev[k] == w;
        if !deleted_with(vars, sel, n - 1) {
            assert(after_delete(vars, sel, n)[k] == w);
        }
    } else {
        let res = after_delete(vars, sel, n);
        assert(res[res.len() - 1] == reindexed_after_delete(vars[j], vars[sel].path));
    }
}

/// Deleting an array element renumbers what follows it: after the element
/// with index `r` of an array is deleted, every entry whose path runs
/// through a later element `i > r` of the same array (the element itself
/// and everything below it) is still there, with `i - 1` in that step of
/// its path and the rest of its path and its value unchanged.
pub proof fn law_delete_renumbers_later_elements(b: App, a: App, j: int)
    requires
        a.deleted_from(b),
        0 <= b.selected < b.vars@.len(),
        0 <= j < b.vars@.len(),
        ({
            let iv = items_view(b.vars@);
            let p = iv[b.selected as int].path;
            let l = p.len() as int;
            &&& l > 0
            &&& p.last() is Index
            &&& path_has_prefix(iv[j].path, p.take(l - 1))
            &&& iv[j].path.len() >= l
            &&& iv[j].path[l - 1] is Index
            &&& iv[j].path[l - 1]->Index_0 > p.last()->Index_0
        }),
    ensures
        ({
            let iv = items_view(b.vars@);
            let p = iv[b.selected as int].path;
            let l = p.len() as int;
            let i = iv[j].path[l - 1]->Index_0;
            exists|k: int|
                0 <= k < a.vars@.len() && #[trigger] items_view(a.vars@)[k].path == iv[j].path.update(
                    l - 1,
                    SegmentView::Index((i - 1) as usize),
                ) && items_view(a.vars@)[k].value == iv[j].value && (iv[j].path.len() == l
                    ==> items_view(a.vars@)[k].key == index_key((i - 1) as nat))
        }),
{
    let iv = items_view(b.vars@);
    let sel = b.selected as int;
    let p = iv[sel].path;
    let l = p.len() as int;
    let i = iv[j].path[l - 1]->Index_0;
    // The entry is not the deleted element, nor below it: its index differs.
    if deleted_with(iv, sel, j) {
        if j == sel {
            assert(iv[j].path[l - 1] == p[l - 1]);
        } else {
            assert(iv[j].path.take(l)[l - 1] == p[l - 1]);
        }
    }
    lemma_after_delete_keeps(iv, sel, iv.len() as int, j);
    let w = reindexed_after_delete(iv[j], p);
    let res = after_delete(iv, sel, iv.len() as int);
    assert(items_view(a.vars@) == res);
    let k = choose|k: int| 0 <= k < res.len() && res[k] == w;
    assert(items_view(a.vars@)[k].path == iv[j].path.update(l - 1, SegmentView::Index((i - 1) as usize)));
}

/// Deleting an entry leaves the others where they were: an entry that is
/// neither deleted with it (the entry and, for a group, everything below
/// it) nor below a later element of the same array is still there,
/// unchanged.
pub proof fn law_delete_keeps_the_rest(b: App, a: App, j: int)
    requires
        a.deleted_from(b),
        0 <= b.selected < b.vars@.len(),
        0 <= j < b.vars@.len(),
        !deleted_with(items_view(b.vars@), b.selected as int, j),
        !({
            let iv = items_view(b.vars@);
            let p = iv[b.selected as int].path;
            let l = p.len() as int;
            &&& l > 0
            &&& p.last() is Index
            &&& path_has_prefix(iv[j].path, p.take(l - 1))
            &&& iv[j].path.len() >= l
            &&& iv[j].path[l - 1] is Index
            &&& iv[j].path[l - 1]->Index_0 > p.last()->Index_0
        }),
    ensures
        items_view(a.vars@).contains(items_view(b.vars@)[j]),
{
    let iv = items_view(b.vars@);
    let sel = b.selected as int;
    lemma_after_delete_keeps(iv, sel, iv.len() as int, j);
    assert(reindexed_after_delete(iv[j], iv[sel].path) == iv[j]);
}

/// Renaming reaches everything below: after the entry at path `p` is
/// renamed to `name`, every entry whose path starts with `p` (at any depth)
/// has `name` in that step of its path and the rest of its path unchanged
/// (the entry itself takes `name` as its key), and every other entry is
/// left as it was.
pub proof fn law_rename_reaches_everything_below(b: App, a: App, j: int)
    requires
        a.key_committed_from(b),
        renamable(items_view(b.vars@), b.selected as int),
        !name_clashes(
            items_view(b.vars@),
            items_view(b.vars@)[b.selected as int].path,
            b.input.text(),
        ),
        0 <= j < b.vars@.len(),
    ensures
        a.vars@.len() == b.vars@.len(),
        ({
            let iv = items_view(b.vars@);
            let p = iv[b.selected as int].path;
            if path_has_prefix(iv[j].path, p) {
                &&& iv[j].path.len() == p.len() ==> items_view(a.vars@)[j].key == b.input.text()
                &&& items_view(a.vars@)[j].path.len() == iv[j].path.len()
                &&& items_view(a.vars@)[j].path[p.len() - 1] == SegmentView::Key(b.input.text())
                &&& forall|q: int|
                    0 <= q < iv[j].path.len() && q != p.len() - 1 ==> #[trigger] items_view(a.vars@)[j].path[q]
                        == iv[j].path[q]
            } else {
                items_view(a.vars@)[j] == iv[j]
            }
        }),
{
    let iv = items_view(b.vars@);
    assert(items_view(a.vars@).len() == a.vars@.len());
}

/// Moving down and then up returns to the same entry.
pub proof fn law_next_then_previous(sel: usize, n: usize)
    requires
        0 < n,
        sel < n,
    ensures
        ({
            let after_next = ((sel + 1) % (n as int)) as usize;
            let after_prev = if after_next == 0 {
                (n - 1) as usize
            } else {
                (after_next - 1) as usize
            };
            after_prev == sel
        }),
{
    let m = n as int;
    let x = sel + 1;
    if x < m {
        assert(x % m == x) by (nonlinear_arith)
            requires
                0 <= x < m,
        ;
    } else {
        assert(x % m == 0) by (nonlinear_arith)
            requires
                x == m,
                m > 0,
        ;
    }
}

/// Saving the entries and then undoing gives those entries back.
pub proof fn law_undo_restores_saved(stack: Seq<Seq<ItemView>>, vars: Seq<ItemView>)
    ensures
        stack_after_save(stack, vars).len() > 0,
        stack_after_save(stack, vars).last() == vars,
{
}


/// The entry `v` after the array element at `sel_path` is deleted: when
/// `sel_path` ends with an index `r`, a later element of the same array
/// (and everything below it) moves one index down, and an element itself
/// is renamed after its new index.
pub open spec fn reindexed_after_delete(v: ItemView, sel_path: Seq<SegmentView>) -> ItemView {
    let l = sel_path.len();
    if l > 0 && sel_path.last() is Index {
        let r = sel_path.last()->Index_0;
        if path_has_prefix(v.path, sel_path.take(l - 1)) && v.path.len() >= l && v.path[l - 1] is Index
            && v.path[l - 1]->Index_0 > r {
            let i = v.path[l - 1]->Index_0;
            ItemView {
                path: v.path.update(l - 1, SegmentView::Index((i - 1) as usize)),
                key: if v.path.len() == l {
                    index_key((i - 1) as nat)
                } else {
                    v.key
                },
                ..v
            }
        } else {
            v
        }
    } else {
        v
    }
}

/// Whether deleting the entry at `sel` takes entry `i` along: the entry
/// itself, and, for a group, every entry whose path starts with its path.
pub open spec fn deleted_with(vars: Seq<ItemView>, sel: int, i: int) -> bool {
    i == sel || (vars[sel].is_group && path_has_prefix(vars[i].path, vars[sel].path))
}

/// What remains of the first `n` entries after the entry at `sel` is
/// deleted, with the later elements of its array moved down.
pub open spec fn after_delete(vars: Seq<ItemView>, sel: int, n: int) -> Seq<ItemView>
    decreases n,
{
    if n <= 0 || n > vars.len() {
        Seq::empty()
    } else {
        let prev = after_delete(vars, sel, n - 1);
        if deleted_with(vars, sel, n - 1) {
            prev
        } else {
            prev.push(reindexed_after_delete(vars[n - 1], vars[sel].path))
        }
    }
}

/// The entry `v` after a new element is inserted at index `new_idx` of the
/// array at `base`: an element at that index or later (and everything below
/// it) moves one index up, and an element itself is renamed.
pub open spec fn shifted_for_insert(v: ItemView, base: Seq<SegmentView>, new_idx: nat) -> ItemView {
    let l = base.len();
    if path_has_prefix(v.path, base) && v.path.len() > l && v.path[l as int] is Index
        && v.path[l as int]->Index_0 >= new_idx {
        let i = v.path[l as int]->Index_0;
        ItemView {
            path: v.path.update(l as int, SegmentView::Index((i + 1) as usize)),
            key: if v.path.len() == l + 1 {
                index_key((i + 1) as nat)
            } else {
                v.key
            },
            ..v
        }
    } else {
        v
    }
}

/// The new, empty array element at index `idx` of the array at `base`.
pub open spec fn new_element(base: Seq<SegmentView>, idx: usize, depth: usize) -> ItemView {
    ItemView {
        key: index_key(idx as nat),
        path: base.push(SegmentView::Index(idx)),
        value: Some(Seq::empty()),
        template_value: None,
        default_value: None,
        depth,
        is_group: false,
        status: ItemStatus::Modified,
        value_type: ValueType::String,
    }
}

/// The position after the entries below path `p`, looking from position `i`.
pub open spec fn subtree_end(iv: Seq<ItemView>, p: Seq<SegmentView>, i: int) -> int
    decreases iv.len() - i,
{
    if i < 0 || i >= iv.len() {
        iv.len() as int
    } else if iv[i].path.len() > p.len() && path_has_prefix(iv[i].path, p) {
        subtree_end(iv, p, i + 1)
    } else {
        i
    }
}

/// Whether adding at `sel` adds a keyed entry: a child of a selected group,
/// or a sibling of an entry whose path ends with a key.
pub open spec fn adds_keyed(iv: Seq<ItemView>, sel: int, as_child: bool) -> bool {
    (as_child && iv[sel].is_group) || (iv[sel].path.len() > 0 && iv[sel].path.last() is Key)
}

/// A new entry with an empty key below `parent`: a group, or an empty value.
pub open spec fn new_keyed(parent: Seq<SegmentView>, depth: usize, is_group: bool) -> ItemView {
    ItemView {
        key: Seq::empty(),
        path: parent.push(SegmentView::Key(Seq::empty())),
        value: if is_group {
            None
        } else {
            Some(Seq::empty())
        },
        template_value: None,
        default_value: None,
        depth,
        is_group,
        status: ItemStatus::Modified,
        value_type: if is_group {
            ValueType::Null
        } else {
            ValueType::String
        },
    }
}

/// Whether no entry's path holds the index `usize::MAX` (which could not
/// move up).
pub open spec fn indices_below_max(vars: Seq<ItemView>) -> bool {
    forall|i: int, k: int|
        0 <= i < vars.len() && 0 <= k < vars[i].path.len() ==> (#[trigger] vars[i].path[k] matches SegmentView::Index(n) ==> n < usize::MAX)
}

/// Whether some entry lies below path `p`.
fn entries_below(vars: &Vec<ConfigItem>, p: &Vec<PathSegment>) -> (r: bool)
    ensures
        r == has_entries_below(items_view(vars@), path_view(p@)),
{
    let ghost iv = items_view(vars@);
    let mut j: usize = 0;
    while j < vars.len()
        invariant
            j <= vars@.len(),
            iv == items_view(vars@),
            forall|q: int| 0 <= q < j ==> !((#[trigger] iv[q]).path.len() > path_view(p@).len()
                && path_has_prefix(iv[q].path, path_view(p@))),
        decreases vars@.len() - j,
    {
        assert(iv[j as int] == vars@[j as int]@);
        if vars[j].path.len() > p.len() && path_starts_with(vars[j].path.as_slice(), p.as_slice()) {
            return true;
        }
        j = j + 1;
    }
    false
}

/// The entry after the entry at path `p` is renamed to `name`.
fn rename_item(v: &ConfigItem, p: &Vec<PathSegment>, name: &String) -> (r: ConfigItem)
    requires
        p@.len() > 0,
    ensures
        r@ == renamed(v@, path_view(p@), name@),
{
    let mut r = v.clone();
    if path_starts_with(v.path.as_slice(), p.as_slice()) {
        let k = p.len() - 1;
        let ghost old_path = path_view(v.path@);
        r.path.set(k, PathSegment::Key(name.clone()));
        assert(path_view(r.path@) =~= old_path.update(k as int, SegmentView::Key(name@)));
        if v.path.len() == p.len() {
            r.key = name.clone();
            r.status = ItemStatus::Modified;
        }
    }
    r
}

fn reindex_for_delete(v: &ConfigItem, sel_path: &Vec<PathSegment>) -> (r: ConfigItem)
    ensures
        r@ == reindexed_after_delete(v@, path_view(sel_path@)),
{
    let l = sel_path.len();
    let ghost sp = path_view(sel_path@);
    if l == 0 {
        return v.clone();
    }
    match &sel_path[l - 1] {
        PathSegment::Index(r) => {
            let base = crate::format::path_prefix(sel_path, l - 1);
            if path_starts_with(&v.path, &base) && v.path.len() >= l {
                assert(path_view(base@) == sp.take(l - 1));
                match &v.path[l - 1] {
                    PathSegment::Index(i) => {
                        if *i > *r {
                            let mut out = v.clone();
                            let ni = *i - 1;
                            out.path.remove(l - 1);
                            out.path.insert(l - 1, PathSegment::Index(ni));
                            if v.path.len() == l {
                                out.key = index_key_string(ni);
                            }
                            assert(path_view(out.path@) =~= path_view(v.path@).update(l - 1, SegmentView::Index(ni)));
                            return out;
                        }
                    },
                    _ => {},
                }
            }
            v.clone()
        },
        _ => v.clone(),
    }
}

fn shift_for_insert(v: &ConfigItem, base: &Vec<PathSegment>, new_idx: usize) -> (r: ConfigItem)
    requires
        forall|k: int| 0 <= k < v@.path.len() ==> (#[trigger] v@.path[k] matches SegmentView::Index(n) ==> n < usize::MAX),
    ensures
        r@ == shifted_for_insert(v@, path_view(base@), new_idx as nat),
{
    let l = base.len();
    if path_starts_with(&v.path, base) && v.path.len() > l {
        match &v.path[l] {
            PathSegment::Index(i) => {
                if *i >= new_idx {
                    assert(v@.path[l as int] == SegmentView::Index(*i));
                    let mut out = v.clone();
                    let ni = *i + 1;
                    out.path.remove(l);
                    out.path.insert(l, PathSegment::Index(ni));
                    if v.path.len() == l + 1 {
                        out.key = index_key_string(ni);
                    }
                    assert(path_view(out.path@) =~= path_view(v.path@).update(l as int, SegmentView::Index(ni)));
                    return out;
                }
            },
            _ => {},
        }
    }
    v.clone()
}

impl App {
    /// Deletes the selected entry, with everything below it when it is a
    /// group; later elements of the same array move one index down. The
    /// entries are saved for undo first, and the selection stays on an
    /// entry.
    pub fn delete_selected(&mut self)
        requires
            old(self).vars@.len() == 0 || old(self).selected < old(self).vars@.len(),
        ensures
            final(self).deleted_from(*old(self)),
    {
        if self.vars.len() == 0 {
            return;
        }
        self.save_undo_state();
        let ghost iv = items_view(self.vars@);
        let sel = self.selected;
        let selected_path = clone_path(&self.vars[sel].path);
        let is_group = self.vars[sel].is_group;
        assert(iv[sel as int] == self.vars@[sel as int]@);
        let mut kept: Vec<ConfigItem> = Vec::new();
        let mut i: usize = 0;
        while i < self.vars.len()
            invariant
                i <= self.vars@.len(),
                sel < self.vars@.len(),
                iv == items_view(self.vars@),
                path_view(selected_path@) == iv[sel as int].path,
                is_group == iv[sel as int].is_group,
                items_view(kept@) == after_delete(iv, sel as int, i as int),
            decreases self.vars@.len() - i,
        {
            assert(iv[i as int] == self.vars@[i as int]@);
            let remove = i == sel || (is_group && path_starts_with(&self.vars[i].path, &selected_path));
            if !remove {
                let r = reindex_for_delete(&self.vars[i], &selected_path);
                let ghost before = kept@;
                kept.push(r);
                assert(items_view(kept@) =~= items_view(before).push(r@));
            }
            i = i + 1;
        }
        self.vars = kept;
        if self.selected >= self.vars.len() && self.vars.len() > 0 {
            self.selected = self.vars.len() - 1;
        }
        self.sync_input_with_selected();
    }

    /// Adds an empty element to the array that the selected element belongs
    /// to, after it or before it, moves the later elements one index up,
    /// selects the new element and starts typing its value. The entries are
    /// saved for undo first (also when the selection is a group or no array
    /// element, in which case nothing else happens).
    pub fn add_array_item(&mut self, after: bool)
        requires
            old(self).vars@.len() == 0 || old(self).selected < old(self).vars@.len(),
            indices_below_max(items_view(old(self).vars@)),
        ensures
            final(self).item_added_from(*old(self), after),
    {
        if self.vars.len() == 0 {
            return;
        }
        self.save_undo_state();
        let ghost iv = items_view(self.vars@);
        let sel = self.selected;
        assert(iv[sel as int] == self.vars@[sel as int]@);
        if self.vars[sel].is_group {
            return;
        }
        let plen = self.vars[sel].path.len();
        if plen == 0 {
            return;
        }
        let idx = match &self.vars[sel].path[plen - 1] {
            PathSegment::Index(idx) => *idx,
            _ => {
                return;
            },
        };
        let depth = self.vars[sel].depth;
        let base = crate::format::path_prefix(&self.vars[sel].path, plen - 1);
        assert(path_view(base@) =~= iv[sel as int].path.drop_last());
        assert(iv[sel as int].path[plen - 1] == SegmentView::Index(idx));
        let new_idx = if after {
            idx + 1
        } else {
            idx
        };
        let insert_pos = if after {
            sel + 1
        } else {
            sel
        };
        let ghost shifted = iv.map_values(|v: ItemView| shifted_for_insert(v, path_view(base@), new_idx as nat));
        let mut out: Vec<ConfigItem> = Vec::new();
        let mut i: usize = 0;
        while i < self.vars.len()
            invariant
                i <= self.vars@.len(),
                iv == items_view(self.vars@),
                indices_below_max(iv),
                shifted == iv.map_values(|v: ItemView| shifted_for_insert(v, path_view(base@), new_idx as nat)),
                items_view(out@) == shifted.take(i as int),
            decreases self.vars@.len() - i,
        {
            assert(iv[i as int] == self.vars@[i as int]@);
            let r = shift_for_insert(&self.vars[i], &base, new_idx);
            let ghost before = out@;
            out.push(r);
            assert(shifted[i as int] == shifted_for_insert(iv[i as int], path_view(base@), new_idx as nat));
            assert(items_view(out@) =~= items_view(before).push(r@));
            assert(shifted.take(i + 1) =~= shifted.take(i as int).push(shifted[i as int]));
            i = i + 1;
        }
        assert(shifted.take(iv.len() as int) == shifted);
        let mut new_path = base;
        new_path.push(PathSegment::Index(new_idx));
        let new_item = ConfigItem {
            key: index_key_string(new_idx),
            path: new_path,
            value: Some(String::new()),
            template_value: None,
            default_value: None,
            depth,
            is_group: false,
            status: ItemStatus::Modified,
            value_type: ValueType::String,
        };
        let ghost ni = new_item@;
        assert(ni == new_element(iv[sel as int].path.drop_last(), new_idx, depth)) by {
            assert(path_view(new_item.path@) =~= iv[sel as int].path.drop_last().push(SegmentView::Index(new_idx)));
        }
        let ghost before = out@;
        out.insert(insert_pos, new_item);
        assert(items_view(out@) =~= items_view(before).insert(insert_pos as int, ni));
        self.vars = out;
        self.selected = insert_pos;
        self.sync_input_with_selected();
        self.enter_insert(InsertVariant::Start);
        self.status_message = None;
    }
}

} // verus!
