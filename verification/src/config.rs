//! Keybinding configuration: the action set, the default table, the
//! `action=key:mod1,mod2` line grammar read from the config file, and
//! the rendering that writes the table back. The file reads and writes
//! themselves are input/output done outside the library.
use vstd::prelude::*;

use crate::text::{
    chars_eq_str, chars_to_string, first_index_of, is_space, split_all, split_all_char,
    split_once_char, str_to_chars,
};

verus! {

/// Every action a key can be bound to.
#[derive(Clone, Copy, Debug, PartialEq, Eq, Hash, Structural)]
pub enum KeybindAction {
    ToggleHidden,
    OpenTerminal,
    SelectAll,
    Refresh,
    OpenWithMicro,
    Back,
    Forward,
    Up,
    Home,
    Copy,
    Cut,
    Paste,
    Delete,
    Rename,
}

/// One binding: the key and its modifiers.
pub struct Keybind {
    pub key: String,
    pub modifiers: Vec<String>,
}

/// The mathematical value of a [`Keybind`].
pub struct KeybindView {
    pub key: Seq<char>,
    pub modifiers: Seq<Seq<char>>,
}

impl View for Keybind {
    type V = KeybindView;

    open spec fn view(&self) -> KeybindView {
        KeybindView {
            key: self.key@,
            modifiers: crate::file_ops::name_views(self.modifiers@),
        }
    }
}

impl Clone for Keybind {
    /// Clones both fields unchanged.
    fn clone(&self) -> (r: Self)
        ensures
            r@ == self@,
    {
        let mut mods: Vec<String> = Vec::new();
        let mut i: usize = 0;
        while i < self.modifiers.len()
            invariant
                i <= self.modifiers@.len(),
                mods@.len() == i,
                forall|k: int| 0 <= k < i ==> mods@[k]@ == self.modifiers@[k]@,
            decreases self.modifiers@.len() - i,
        {
            mods.push(self.modifiers[i].clone());
            i += 1;
        }
        let r = Keybind { key: self.key.clone(), modifiers: mods };
        proof {
            assert(r@.modifiers =~= self@.modifiers);
        }
        r
    }
}

/// The number of leading whitespace characters.
pub open spec fn leading_ws(s: Seq<char>) -> nat
    decreases s.len(),
{
    if s.len() == 0 || !is_space(s.first()) {
        0
    } else {
        1 + leading_ws(s.drop_first())
    }
}

/// A line with its leading and trailing whitespace dropped.
pub open spec fn trim_spec(s: Seq<char>) -> Seq<char>
    decreases s.len(),
    via trim_spec_decreases
{
    if s.len() == 0 {
        s
    } else if is_space(s.first()) {
        trim_spec(s.drop_first())
    } else if is_space(s.last()) {
        trim_spec(s.drop_last())
    } else {
        s
    }
}

#[via_fn]
proof fn trim_spec_decreases(s: Seq<char>) {
}

/// Characterizes the trim: with spaces exactly outside `a..b`, the trim
/// is the inside.
pub proof fn lemma_trim_at(s: Seq<char>, a: int, b: int)
    requires
        0 <= a <= b <= s.len(),
        forall|k: int| 0 <= k < a ==> is_space(s[k]),
        forall|k: int| b <= k < s.len() ==> is_space(s[k]),
        a < b ==> !is_space(s[a]) && !is_space(s[b - 1]),
    ensures
        trim_spec(s) == s.subrange(a, b),
    decreases s.len(),
{
    if a == b {
        if s.len() == 0 {
            assert(trim_spec(s) =~= s.subrange(a, b));
        } else {
            assert(is_space(s.first()));
            lemma_trim_at(s.drop_first(), if a > 0 {
                a - 1
            } else {
                0
            }, if b > 0 {
                b - 1
            } else {
                0
            });
            assert(trim_spec(s) =~= s.subrange(a, b));
        }
    } else if a > 0 {
        assert(is_space(s.first()));
        lemma_trim_at(s.drop_first(), a - 1, b - 1);
        assert(s.drop_first().subrange(a - 1, b - 1) =~= s.subrange(a, b));
    } else if b < s.len() {
        assert(!is_space(s.first()));
        assert(is_space(s.last()));
        lemma_trim_at(s.drop_last(), a, b);
        assert(s.drop_last().subrange(a, b) =~= s.subrange(a, b));
    } else {
        assert(trim_spec(s) == s);
        assert(s.subrange(0, s.len() as int) =~= s);
    }
}

/// Drops leading and trailing whitespace.
pub fn trim_exec(s: &Vec<char>) -> (r: Vec<char>)
    ensures
        r@ == trim_spec(s@),
{
    let n = s.len();
    let mut a: usize = 0;
    while a < n && (s[a] == ' ' || s[a] == '\t')
        invariant
            a <= n,
            n == s@.len(),
            forall|k: int| 0 <= k < a ==> is_space(s@[k]),
        decreases n - a,
    {
        a += 1;
    }
    let mut b: usize = n;
    while b > a && (s[b - 1] == ' ' || s[b - 1] == '\t')
        invariant
            a <= b <= n,
            n == s@.len(),
            forall|k: int| b <= k < n ==> is_space(s@[k]),
        decreases b,
    {
        b -= 1;
    }
    proof {
        lemma_trim_at(s@, a as int, b as int);
    }
    let mut out: Vec<char> = Vec::new();
    let mut i: usize = a;
    while i < b
        invariant
            a <= i <= b <= n,
            n == s@.len(),
            out@ == s@.subrange(a as int, i as int),
        decreases b - i,
    {
        out.push(s[i]);
        i += 1;
        proof {
            assert(out@ =~= s@.subrange(a as int, i as int));
        }
    }
    out
}

/// The configuration-file name of each action.
pub open spec fn action_name(a: KeybindAction) -> Seq<char> {
    match a {
        KeybindAction::ToggleHidden => "toggle_hidden"@,
        KeybindAction::OpenTerminal => "open_terminal"@,
        KeybindAction::SelectAll => "select_all"@,
        KeybindAction::Refresh => "refresh"@,
        KeybindAction::OpenWithMicro => "open_with_micro"@,
        KeybindAction::Back => "back"@,
        KeybindAction::Forward => "forward"@,
        KeybindAction::Up => "up"@,
        KeybindAction::Home => "home"@,
        KeybindAction::Copy => "copy"@,
        KeybindAction::Cut => "cut"@,
        KeybindAction::Paste => "paste"@,
        KeybindAction::Delete => "delete"@,
        KeybindAction::Rename => "rename"@,
    }
}

/// The label each action shows in dialogs.
pub open spec fn action_display_name(a: KeybindAction) -> Seq<char> {
    match a {
        KeybindAction::ToggleHidden => "Toggle Hidden Files"@,
        KeybindAction::OpenTerminal => "Open Terminal"@,
        KeybindAction::SelectAll => "Select All"@,
        KeybindAction::Refresh => "Refresh"@,
        KeybindAction::OpenWithMicro => "Open with Micro"@,
        KeybindAction::Back => "Back"@,
        KeybindAction::Forward => "Forward"@,
        KeybindAction::Up => "Up (Parent)"@,
        KeybindAction::Home => "Home"@,
        KeybindAction::Copy => "Copy"@,
        KeybindAction::Cut => "Cut"@,
        KeybindAction::Paste => "Paste"@,
        KeybindAction::Delete => "Delete"@,
        KeybindAction::Rename => "Rename"@,
    }
}

/// The action a configuration name denotes, if any.
pub open spec fn action_of_name(s: Seq<char>) -> Option<KeybindAction> {
    if s == "toggle_hidden"@ {
        Option::Some(KeybindAction::ToggleHidden)
    } else if s == "open_terminal"@ {
        Option::Some(KeybindAction::OpenTerminal)
    } else if s == "select_all"@ {
        Option::Some(KeybindAction::SelectAll)
    } else if s == "refresh"@ {
        Option::Some(KeybindAction::Refresh)
    } else if s == "open_with_micro"@ {
        Option::Some(KeybindAction::OpenWithMicro)
    } else if s == "back"@ {
        Option::Some(KeybindAction::Back)
    } else if s == "forward"@ {
        Option::Some(KeybindAction::Forward)
    } else if s == "up"@ {
        Option::Some(KeybindAction::Up)
    } else if s == "home"@ {
        Option::Some(KeybindAction::Home)
    } else if s == "copy"@ {
        Option::Some(KeybindAction::Copy)
    } else if s == "cut"@ {
        Option::Some(KeybindAction::Cut)
    } else if s == "paste"@ {
        Option::Some(KeybindAction::Paste)
    } else if s == "delete"@ {
        Option::Some(KeybindAction::Delete)
    } else if s == "rename"@ {
        Option::Some(KeybindAction::Rename)
    } else {
        Option::None
    }
}

/// The pieces of a joined list: elements with `sep` between them.
pub open spec fn join_chars(s: Seq<Seq<char>>, sep: char) -> Seq<char>
    decreases s.len(),
{
    if s.len() == 0 {
        Seq::empty()
    } else if s.len() == 1 {
        s[0]
    } else {
        join_chars(s.drop_last(), sep) + seq![sep] + s.last()
    }
}

/// Appends the elements joined with `sep` between them.
fn append_joined(out: &mut Vec<char>, parts: &Vec<String>, sep: char)
    ensures
        final(out)@ == old(out)@ + join_chars(crate::file_ops::name_views(parts@), sep),
{
    let ghost pv = crate::file_ops::name_views(parts@);
    let mut i: usize = 0;
    while i < parts.len()
        invariant
            pv == crate::file_ops::name_views(parts@),
            i <= parts@.len(),
            out@ == old(out)@ + join_chars(pv.subrange(0, i as int), sep),
        decreases parts@.len() - i,
    {
        if i > 0 {
            out.push(sep);
        }
        let piece = str_to_chars(parts[i].as_str());
        crate::file_ops::append_chars(out, &piece);
        i += 1;
        proof {
            let now = pv.subrange(0, i as int);
            assert(now.last() == pv[i - 1]);
            assert(now.drop_last() =~= pv.subrange(0, i as int - 1));
            if i == 1 {
                assert(out@ =~= old(out)@ + join_chars(now, sep));
            } else {
                assert(out@ =~= old(out)@ + join_chars(now, sep));
            }
        }
    }
    proof {
        assert(pv.subrange(0, parts@.len() as int) =~= pv);
    }
}

/// What a keybind shows as: the key alone, or the modifiers joined with
/// `+` and the key after one more `+`.
pub open spec fn keybind_display(k: KeybindView) -> Seq<char> {
    if k.modifiers.len() == 0 {
        k.key
    } else {
        join_chars(k.modifiers, '+') + seq!['+'] + k.key
    }
}

/// The keybinding table: the actions, their defaults, and the file
/// grammar.
pub struct KeybindConfig;

impl KeybindConfig {
    /// The configuration-file name of an action.
    pub fn action_to_string(action: &KeybindAction) -> (r: &'static str)
        ensures
            r@ == action_name(*action),
    {
        match action {
            KeybindAction::ToggleHidden => "toggle_hidden",
            KeybindAction::OpenTerminal => "open_terminal",
            KeybindAction::SelectAll => "select_all",
            KeybindAction::Refresh => "refresh",
            KeybindAction::OpenWithMicro => "open_with_micro",
            KeybindAction::Back => "back",
            KeybindAction::Forward => "forward",
            KeybindAction::Up => "up",
            KeybindAction::Home => "home",
            KeybindAction::Copy => "copy",
            KeybindAction::Cut => "cut",
            KeybindAction::Paste => "paste",
            KeybindAction::Delete => "delete",
            KeybindAction::Rename => "rename",
        }
    }

    /// The label an action shows in dialogs.
    pub fn action_to_display_name(action: &KeybindAction) -> (r: &'static str)
        ensures
            r@ == action_display_name(*action),
    {
        match action {
            KeybindAction::ToggleHidden => "Toggle Hidden Files",
            KeybindAction::OpenTerminal => "Open Terminal",
            KeybindAction::SelectAll => "Select All",
            KeybindAction::Refresh => "Refresh",
            KeybindAction::OpenWithMicro => "Open with Micro",
            KeybindAction::Back => "Back",
            KeybindAction::Forward => "Forward",
            KeybindAction::Up => "Up (Parent)",
            KeybindAction::Home => "Home",
            KeybindAction::Copy => "Copy",
            KeybindAction::Cut => "Cut",
            KeybindAction::Paste => "Paste",
            KeybindAction::Delete => "Delete",
            KeybindAction::Rename => "Rename",
        }
    }

    /// The action a configuration name denotes.
    pub fn parse_action(name: &str) -> (r: Option<KeybindAction>)
        ensures
            r == action_of_name(name@),
    {
        let nv = str_to_chars(name);
        if chars_eq_str(&nv, "toggle_hidden") {
            Some(KeybindAction::ToggleHidden)
        } else if chars_eq_str(&nv, "open_terminal") {
            Some(KeybindAction::OpenTerminal)
        } else if chars_eq_str(&nv, "select_all") {
            Some(KeybindAction::SelectAll)
        } else if chars_eq_str(&nv, "refresh") {
            Some(KeybindAction::Refresh)
        } else if chars_eq_str(&nv, "open_with_micro") {
            Some(KeybindAction::OpenWithMicro)
        } else if chars_eq_str(&nv, "back") {
            Some(KeybindAction::Back)
        } else if chars_eq_str(&nv, "forward") {
            Some(KeybindAction::Forward)
        } else if chars_eq_str(&nv, "up") {
            Some(KeybindAction::Up)
        } else if chars_eq_str(&nv, "home") {
            Some(KeybindAction::Home)
        } else if chars_eq_str(&nv, "copy") {
            Some(KeybindAction::Copy)
        } else if chars_eq_str(&nv, "cut") {
            Some(KeybindAction::Cut)
        } else if chars_eq_str(&nv, "paste") {
            Some(KeybindAction::Paste)
        } else if chars_eq_str(&nv, "delete") {
            Some(KeybindAction::Delete)
        } else if chars_eq_str(&nv, "rename") {
            Some(KeybindAction::Rename)
        } else {
            None
        }
    }

    /// Renders a keybind for display.
    pub fn keybind_to_string(keybind: &Keybind) -> (r: String)
        ensures
            r@ == keybind_display(keybind@),
    {
        if keybind.modifiers.len() == 0 {
            proof {
                assert(keybind@.modifiers.len() == keybind.modifiers@.len());
            }
            return keybind.key.clone();
        }
        let mut out: Vec<char> = Vec::new();
        append_joined(&mut out, &keybind.modifiers, '+');
        out.push('+');
        let kv = str_to_chars(keybind.key.as_str());
        crate::file_ops::append_chars(&mut out, &kv);
        proof {
            assert(keybind@.modifiers.len() == keybind.modifiers@.len());
            assert(out@ =~= keybind_display(keybind@));
        }
        chars_to_string(&out)
    }
}

/// The views of an action-to-keybind table.
pub open spec fn pair_views(s: Seq<(KeybindAction, Keybind)>) -> Seq<(KeybindAction, KeybindView)> {
    s.map_values(|p: (KeybindAction, Keybind)| (p.0, p.1@))
}

/// A keybind of one bare key.
pub open spec fn plain_key(key: Seq<char>) -> KeybindView {
    KeybindView { key: key, modifiers: Seq::empty() }
}

/// A keybind of one key under `Control`.
pub open spec fn control_key(key: Seq<char>) -> KeybindView {
    KeybindView { key: key, modifiers: seq!["Control"@] }
}

/// The default table, one binding per action.
pub open spec fn default_binds() -> Seq<(KeybindAction, KeybindView)> {
    seq![
        (KeybindAction::ToggleHidden, control_key("h"@)),
        (KeybindAction::OpenTerminal, plain_key("h"@)),
        (KeybindAction::SelectAll, control_key("a"@)),
        (KeybindAction::Refresh, plain_key("F5"@)),
        (KeybindAction::OpenWithMicro, plain_key("m"@)),
        (KeybindAction::Back, plain_key("Mouse8"@)),
        (KeybindAction::Forward, plain_key("Mouse9"@)),
        (KeybindAction::Up, plain_key("Up"@)),
        (KeybindAction::Home, plain_key("Home"@)),
        (KeybindAction::Copy, control_key("c"@)),
        (KeybindAction::Cut, control_key("x"@)),
        (KeybindAction::Paste, control_key("v"@)),
        (KeybindAction::Delete, plain_key("Delete"@)),
        (KeybindAction::Rename, plain_key("F2"@)),
    ]
}

/// The keybind the grammar reads after the `=`: a `key:mods` pair with
/// the modifiers comma-separated and trimmed, or a bare key with no
/// modifiers; an empty modifier list also counts as none.
pub open spec fn keybind_of_spec(rest: Seq<char>) -> KeybindView {
    match first_index_of(rest, ':') {
        Option::None => KeybindView { key: rest, modifiers: Seq::empty() },
        Option::Some(c) => {
            let key = trim_spec(rest.subrange(0, c));
            let mods_str = rest.skip(c + 1);
            if trim_spec(mods_str).len() == 0 {
                KeybindView { key: key, modifiers: Seq::empty() }
            } else {
                KeybindView {
                    key: key,
                    modifiers: split_all(mods_str, ',').map_values(|m: Seq<char>| trim_spec(m)),
                }
            }
        },
    }
}

/// One line of the configuration file: empty lines and comments carry
/// nothing; otherwise the trimmed name before the `=` must denote an
/// action, and what follows is its keybind.
pub open spec fn parse_line_spec(line: Seq<char>) -> Option<(KeybindAction, KeybindView)> {
    let t = trim_spec(line);
    if t.len() == 0 || t[0] == '#' {
        Option::None
    } else {
        match first_index_of(t, '=') {
            Option::None => Option::None,
            Option::Some(e) => {
                let action_str = trim_spec(t.subrange(0, e));
                let rest = trim_spec(t.skip(e + 1));
                match action_of_name(action_str) {
                    Option::None => Option::None,
                    Option::Some(a) => Option::Some((a, keybind_of_spec(rest))),
                }
            },
        }
    }
}

/// The position of an action's binding in the table, if it has one.
pub open spec fn find_action(s: Seq<(KeybindAction, KeybindView)>, a: KeybindAction) -> Option<int>
    decreases s.len(),
{
    if s.len() == 0 {
        Option::None
    } else if s.first().0 == a {
        Option::Some(0)
    } else {
        match find_action(s.drop_first(), a) {
            Option::None => Option::None,
            Option::Some(k) => Option::Some(k + 1),
        }
    }
}

/// Characterizes the found position.
pub proof fn lemma_find_action_at(s: Seq<(KeybindAction, KeybindView)>, a: KeybindAction, d: int)
    requires
        0 <= d < s.len(),
        s[d].0 == a,
        forall|k: int| 0 <= k < d ==> s[k].0 != a,
    ensures
        find_action(s, a) == Option::Some(d),
    decreases s.len(),
{
    if d > 0 {
        lemma_find_action_at(s.drop_first(), a, d - 1);
    }
}

/// When no entry carries the action, none is found.
pub proof fn lemma_find_action_none(s: Seq<(KeybindAction, KeybindView)>, a: KeybindAction)
    requires
        forall|k: int| 0 <= k < s.len() ==> s[k].0 != a,
    ensures
        find_action(s, a) is None,
    decreases s.len(),
{
    if s.len() > 0 {
        lemma_find_action_none(s.drop_first(), a);
    }
}

/// A table after binding `a` to `k`: the first entry carrying `a` is
/// replaced, or the pair is appended when none does.
pub open spec fn upsert_spec(
    s: Seq<(KeybindAction, KeybindView)>,
    a: KeybindAction,
    k: KeybindView,
) -> Seq<(KeybindAction, KeybindView)> {
    match find_action(s, a) {
        Option::None => s.push((a, k)),
        Option::Some(i) => s.update(i, (a, k)),
    }
}

/// A table after one configuration line: unchanged for a line carrying
/// nothing, rebound otherwise.
pub open spec fn apply_line(s: Seq<(KeybindAction, KeybindView)>, line: Seq<char>) -> Seq<
    (KeybindAction, KeybindView),
> {
    match parse_line_spec(line) {
        Option::None => s,
        Option::Some(p) => upsert_spec(s, p.0, p.1),
    }
}

/// A table after a whole file's lines, in order.
pub open spec fn apply_lines(
    s: Seq<(KeybindAction, KeybindView)>,
    lines: Seq<Seq<char>>,
) -> Seq<(KeybindAction, KeybindView)>
    decreases lines.len(),
{
    if lines.len() == 0 {
        s
    } else {
        apply_lines(apply_line(s, lines.first()), lines.drop_first())
    }
}

impl KeybindConfig {
    /// The default table.
    pub fn default_keybinds() -> (r: Vec<(KeybindAction, Keybind)>)
        ensures
            pair_views(r@) == default_binds(),
    {
        let mut r: Vec<(KeybindAction, Keybind)> = Vec::new();
        r.push(
            (
                KeybindAction::ToggleHidden,
                Keybind { key: String::from_str("h"), modifiers: control_vec() },
            ),
        );
        r.push(
            (
                KeybindAction::OpenTerminal,
                Keybind { key: String::from_str("h"), modifiers: Vec::new() },
            ),
        );
        r.push(
            (
                KeybindAction::SelectAll,
                Keybind { key: String::from_str("a"), modifiers: control_vec() },
            ),
        );
        r.push(
            (
                KeybindAction::Refresh,
                Keybind { key: String::from_str("F5"), modifiers: Vec::new() },
            ),
        );
        r.push(
            (
                KeybindAction::OpenWithMicro,
                Keybind { key: String::from_str("m"), modifiers: Vec::new() },
            ),
        );
        r.push(
            (
                KeybindAction::Back,
                Keybind { key: String::from_str("Mouse8"), modifiers: Vec::new() },
            ),
        );
        r.push(
            (
                KeybindAction::Forward,
                Keybind { key: String::from_str("Mouse9"), modifiers: Vec::new() },
            ),
        );
        r.push(
            (KeybindAction::Up, Keybind { key: String::from_str("Up"), modifiers: Vec::new() }),
        );
        r.push(
            (
                KeybindAction::Home,
                Keybind { key: String::from_str("Home"), modifiers: Vec::new() },
            ),
        );
        r.push(
            (
                KeybindAction::Copy,
                Keybind { key: String::from_str("c"), modifiers: control_vec() },
            ),
        );
        r.push(
            (KeybindAction::Cut, Keybind { key: String::from_str("x"), modifiers: control_vec() }),
        );
        r.push(
            (
                KeybindAction::Paste,
                Keybind { key: String::from_str("v"), modifiers: control_vec() },
            ),
        );
        r.push(
            (
                KeybindAction::Delete,
                Keybind { key: String::from_str("Delete"), modifiers: Vec::new() },
            ),
        );
        r.push(
            (
                KeybindAction::Rename,
                Keybind { key: String::from_str("F2"), modifiers: Vec::new() },
            ),
        );
        proof {
            assert forall|i: int| 0 <= i < 14 implies pair_views(r@)[i] == default_binds()[i] by {
                assert(pair_views(r@)[i] == (r@[i].0, r@[i].1@));
                assert(r@[i].1@.modifiers =~= default_binds()[i].1.modifiers);
            }
            assert(pair_views(r@) =~= default_binds());
        }
        r
    }

    /// Reads one configuration line.
    pub fn parse_keybind_line(line: &str) -> (r: Option<(KeybindAction, Keybind)>)
        ensures
            match r {
                Some(p) => parse_line_spec(line@) == Option::Some((p.0, p.1@)),
                None => parse_line_spec(line@) is None,
            },
    {
        let lv = str_to_chars(line);
        let t = trim_exec(&lv);
        if t.len() == 0 || t[0] == '#' {
            return None;
        }
        let (left, rest_raw) = match split_once_char(&t, '=') {
            None => {
                return None;
            },
            Some(p) => p,
        };
        let action_chars = trim_exec(&left);
        proof {
            assert(left@ == t@.subrange(0, left@.len() as int));
        }
        let action_str = chars_to_string(&action_chars);
        let a = match Self::parse_action(action_str.as_str()) {
            None => {
                return None;
            },
            Some(a) => a,
        };
        let rest = trim_exec(&rest_raw);
        let kb = Self::keybind_of_rest(&rest);
        proof {
            assert(kb@ == keybind_of_spec(trim_spec(t@.skip(left@.len() as int + 1))));
        }
        Some((a, kb))
    }

    /// Reads the `key:mods` part of a line.
    fn keybind_of_rest(rest: &Vec<char>) -> (r: Keybind)
        ensures
            r@ == keybind_of_spec(rest@),
    {
        match split_once_char(rest, ':') {
            None => {
                let r = Keybind { key: chars_to_string(rest), modifiers: Vec::new() };
                proof {
                    assert(r@.modifiers =~= Seq::<Seq<char>>::empty());
                }
                r
            },
            Some((key_raw, mods_str)) => {
                let key = chars_to_string(&trim_exec(&key_raw));
                proof {
                    assert(key_raw@ == rest@.subrange(0, key_raw@.len() as int));
                }
                let mods_trimmed = trim_exec(&mods_str);
                if mods_trimmed.len() == 0 {
                    let r = Keybind { key, modifiers: Vec::new() };
                    proof {
                        assert(r@.modifiers =~= Seq::<Seq<char>>::empty());
                    }
                    r
                } else {
                    let pieces = split_all_char(&mods_str, ',');
                    let mut mods: Vec<String> = Vec::new();
                    let mut i: usize = 0;
                    while i < pieces.len()
                        invariant
                            i <= pieces@.len(),
                            mods@.len() == i,
                            forall|k: int|
                                0 <= k < i ==> mods@[k]@ == trim_spec(pieces.deep_view()[k]),
                        decreases pieces@.len() - i,
                    {
                        mods.push(chars_to_string(&trim_exec(&pieces[i])));
                        i += 1;
                        proof {
                            assert(mods@[i - 1]@ == trim_spec(pieces@[i - 1]@));
                            assert(pieces.deep_view()[i - 1] == pieces@[i - 1]@);
                        }
                    }
                    let r = Keybind { key, modifiers: mods };
                    proof {
                        assert(pieces.deep_view() == split_all(mods_str@, ','));
                        assert(r@.modifiers =~= split_all(mods_str@, ',').map_values(
                            |m: Seq<char>| trim_spec(m),
                        ));
                    }
                    r
                }
            },
        }
    }

    /// Rebinds one action: its first entry is replaced, or the binding
    /// appended when the table has none.
    pub fn upsert(
        binds: &mut Vec<(KeybindAction, Keybind)>,
        action: KeybindAction,
        keybind: Keybind,
    )
        ensures
            pair_views(final(binds)@) == upsert_spec(pair_views(old(binds)@), action, keybind@),
    {
        let ghost pv = pair_views(binds@);
        let mut i: usize = 0;
        while i < binds.len()
            invariant
                pv == pair_views(binds@),
                pv == pair_views(old(binds)@),
                i <= binds@.len(),
                forall|k: int| 0 <= k < i ==> pv[k].0 != action,
            decreases binds@.len() - i,
        {
            if binds[i].0 == action {
                proof {
                    assert(pv[i as int].0 == action);
                    lemma_find_action_at(pv, action, i as int);
                }
                let ghost before = binds@;
                let old_pair = binds.remove(i);
                binds.insert(i, (action, keybind));
                proof {
                    assert(binds@ =~= before.update(i as int, (action, keybind)));
                    assert(pair_views(binds@) =~= pv.update(i as int, (action, keybind@)));
                    assert(find_action(pv, action) == Option::Some(i as int));
                    assert(upsert_spec(pv, action, keybind@) == pv.update(
                        i as int,
                        (action, keybind@),
                    ));
                }
                return ;
            }
            i += 1;
        }
        proof {
            lemma_find_action_none(pv, action);
        }
        binds.push((action, keybind));
        proof {
            assert(pair_views(binds@) =~= pv.push((action, keybind@)));
        }
    }

    /// The table a configuration file yields: the defaults, then every
    /// line applied in order.
    pub fn load_from_content(content: &str) -> (r: Vec<(KeybindAction, Keybind)>)
        ensures
            pair_views(r@) == apply_lines(default_binds(), split_all(content@, '\n')),
    {
        let mut binds = Self::default_keybinds();
        let cv = str_to_chars(content);
        let lines = split_all_char(&cv, '\n');
        let ghost all = split_all(content@, '\n');
        let mut i: usize = 0;
        proof {
            assert(all.skip(0) =~= all);
        }
        while i < lines.len()
            invariant
                i <= lines@.len(),
                lines.deep_view() == all,
                apply_lines(default_binds(), all) == apply_lines(
                    pair_views(binds@),
                    all.skip(i as int),
                ),
            decreases lines@.len() - i,
        {
            let line = chars_to_string(&lines[i]);
            let ghost before = pair_views(binds@);
            proof {
                assert(lines.deep_view()[i as int] == lines@[i as int]@);
                assert(all.skip(i as int).first() == all[i as int]);
                assert(all.skip(i as int).drop_first() =~= all.skip(i as int + 1));
            }
            match Self::parse_keybind_line(line.as_str()) {
                None => {
                    proof {
                        assert(apply_line(before, all[i as int]) == before);
                    }
                },
                Some((a, kb)) => {
                    Self::upsert(&mut binds, a, kb);
                    proof {
                        assert(apply_line(before, all[i as int]) == pair_views(binds@));
                    }
                },
            }
            i += 1;
        }
        proof {
            assert(all.skip(lines@.len() as int) =~= Seq::<Seq<char>>::empty());
        }
        binds
    }
}

/// The heading comments the configuration file is written with.
pub open spec fn config_header() -> Seq<char> {
    "# Blink keybinds configuration\n# Format: action=key:modifier1,modifier2\n# Modifiers: Control, Shift, Alt, Super\n# Special keys: F1-F12, Up, Down, Left, Right, Home, End, Delete, etc.\n# Mouse buttons: Mouse8, Mouse9\n\n"@
}

/// The binding of one action in the table, if it has one.
pub open spec fn lookup_action(
    s: Seq<(KeybindAction, KeybindView)>,
    a: KeybindAction,
) -> Option<KeybindView> {
    match find_action(s, a) {
        Option::None => Option::None,
        Option::Some(i) => Option::Some(s[i].1),
    }
}

/// One action's line as written back: name, `=`, key, and the
/// comma-joined modifiers after a `:` when there are any; nothing for an
/// unbound action.
pub open spec fn config_entry(s: Seq<(KeybindAction, KeybindView)>, a: KeybindAction) -> Seq<
    char,
> {
    match lookup_action(s, a) {
        Option::None => Seq::empty(),
        Option::Some(k) => action_name(a) + seq!['='] + k.key + (if k.modifiers.len() == 0 {
            Seq::<char>::empty()
        } else {
            seq![':'] + join_chars(k.modifiers, ',')
        }) + seq!['\n'],
    }
}

/// A whole table as written back: the heading, then every action's line
/// in the fixed order.
pub open spec fn render_config_spec(s: Seq<(KeybindAction, KeybindView)>) -> Seq<char> {
    config_header() + config_entry(s, KeybindAction::ToggleHidden) + config_entry(
        s,
        KeybindAction::OpenTerminal,
    ) + config_entry(s, KeybindAction::SelectAll) + config_entry(s, KeybindAction::Refresh)
        + config_entry(s, KeybindAction::OpenWithMicro) + config_entry(s, KeybindAction::Back)
        + config_entry(s, KeybindAction::Forward) + config_entry(s, KeybindAction::Up)
        + config_entry(s, KeybindAction::Home) + config_entry(s, KeybindAction::Copy)
        + config_entry(s, KeybindAction::Cut) + config_entry(s, KeybindAction::Paste)
        + config_entry(s, KeybindAction::Delete) + config_entry(s, KeybindAction::Rename)
}

/// Appends one action's line, when the table binds it.
fn append_entry(out: &mut Vec<char>, binds: &Vec<(KeybindAction, Keybind)>, action: KeybindAction)
    ensures
        final(out)@ == old(out)@ + config_entry(pair_views(binds@), action),
{
    let ghost pv = pair_views(binds@);
    let mut i: usize = 0;
    while i < binds.len()
        invariant
            pv == pair_views(binds@),
            out@ == old(out)@,
            i <= binds@.len(),
            forall|k: int| 0 <= k < i ==> pv[k].0 != action,
        decreases binds@.len() - i,
    {
        if binds[i].0 == action {
            proof {
                assert(pv[i as int].0 == action);
                lemma_find_action_at(pv, action, i as int);
            }
            let name = KeybindConfig::action_to_string(&action);
            let nv = str_to_chars(name);
            crate::file_ops::append_chars(out, &nv);
            out.push('=');
            let kv = str_to_chars(binds[i].1.key.as_str());
            crate::file_ops::append_chars(out, &kv);
            if binds[i].1.modifiers.len() > 0 {
                out.push(':');
                append_joined(out, &binds[i].1.modifiers, ',');
            }
            out.push('\n');
            proof {
                assert(pv[i as int].1 == binds@[i as int].1@);
                assert(pv[i as int].1.modifiers.len() == binds@[i as int].1.modifiers@.len());
                assert(out@ =~= old(out)@ + config_entry(pv, action));
            }
            return ;
        }
        i += 1;
    }
    proof {
        lemma_find_action_none(pv, action);
        assert(out@ =~= old(out)@ + config_entry(pv, action));
    }
}

impl KeybindConfig {
    /// Renders a table as the configuration file's whole body.
    pub fn render_config(binds: &Vec<(KeybindAction, Keybind)>) -> (r: String)
        ensures
            r@ == render_config_spec(pair_views(binds@)),
    {
        let mut out: Vec<char> = str_to_chars(
            "# Blink keybinds configuration\n# Format: action=key:modifier1,modifier2\n# Modifiers: Control, Shift, Alt, Super\n# Special keys: F1-F12, Up, Down, Left, Right, Home, End, Delete, etc.\n# Mouse buttons: Mouse8, Mouse9\n\n",
        );
        append_entry(&mut out, binds, KeybindAction::ToggleHidden);
        append_entry(&mut out, binds, KeybindAction::OpenTerminal);
        append_entry(&mut out, binds, KeybindAction::SelectAll);
        append_entry(&mut out, binds, KeybindAction::Refresh);
        append_entry(&mut out, binds, KeybindAction::OpenWithMicro);
        append_entry(&mut out, binds, KeybindAction::Back);
        append_entry(&mut out, binds, KeybindAction::Forward);
        append_entry(&mut out, binds, KeybindAction::Up);
        append_entry(&mut out, binds, KeybindAction::Home);
        append_entry(&mut out, binds, KeybindAction::Copy);
        append_entry(&mut out, binds, KeybindAction::Cut);
        append_entry(&mut out, binds, KeybindAction::Paste);
        append_entry(&mut out, binds, KeybindAction::Delete);
        append_entry(&mut out, binds, KeybindAction::Rename);
        proof {
            assert(out@ =~= render_config_spec(pair_views(binds@)));
        }
        chars_to_string(&out)
    }
}

/// The single-modifier list `Control`.
fn control_vec() -> (r: Vec<String>)
    ensures
        crate::file_ops::name_views(r@) == seq!["Control"@],
{
    let mut v: Vec<String> = Vec::new();
    v.push(String::from_str("Control"));
    proof {
        assert(crate::file_ops::name_views(v@) =~= seq!["Control"@]);
    }
    v
}

} // verus!
