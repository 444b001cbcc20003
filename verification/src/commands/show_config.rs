//! The settings editor: four rows, a cursor, and the reaction to each key.

use crate::config::{Config, ConfigView};
use crate::text::{pad_right, padded, same_text, trim, trimmed};
use vstd::prelude::*;

verus! {

/// How many editors the settings editor offers by name. One more choice,
/// "custom", follows them.
pub const EDITOR_OPTION_COUNT: usize = 8;

/// How many rows the settings editor has.
pub const ROW_COUNT: usize = 4;

/// The width of the column of names.
pub const NAME_WIDTH: usize = 18;

/// The editor at position `i` of the offered editors.
pub open spec fn option_text(i: int) -> Seq<char> {
    if i == 0 {
        "none"@
    } else if i == 1 {
        "code"@
    } else if i == 2 {
        "zed"@
    } else if i == 3 {
        "vim"@
    } else if i == 4 {
        "nvim"@
    } else if i == 5 {
        "cursor"@
    } else if i == 6 {
        "nano"@
    } else {
        "emacs"@
    }
}

/// The editor at position `i` of the offered editors.
pub fn editor_option(i: usize) -> (name: &'static str)
    requires
        i < EDITOR_OPTION_COUNT,
    ensures
        name@ == option_text(i as int),
{
    if i == 0 {
        "none"
    } else if i == 1 {
        "code"
    } else if i == 2 {
        "zed"
    } else if i == 3 {
        "vim"
    } else if i == 4 {
        "nvim"
    } else if i == 5 {
        "cursor"
    } else if i == 6 {
        "nano"
    } else {
        "emacs"
    }
}

/// The name of the setting in row `i`.
pub open spec fn row_name(i: int) -> Seq<char> {
    if i == 0 {
        "editor"@
    } else if i == 1 {
        "cd_on_select"@
    } else if i == 2 {
        "git_init_on_add"@
    } else {
        "gh_create_on_add"@
    }
}

/// A truth value in words.
pub open spec fn bool_text(b: bool) -> Seq<char> {
    if b {
        "true"@
    } else {
        "false"@
    }
}

fn bool_to_text(b: bool) -> (r: String)
    ensures
        r@ == bool_text(b),
{
    if b {
        "true".to_owned()
    } else {
        "false".to_owned()
    }
}

/// The settings editor: the settings as they stand, the row that the cursor
/// is on, and the editor that is chosen.
#[derive(Debug)]
pub struct ConfigEditor {
    config: Config,
    selected_row: usize,
    editor_index: usize,
    custom_editor: Option<String>,
}

/// What the settings editor holds, as plain mathematical values.
pub struct EditorView {
    pub config: ConfigView,
    pub selected_row: int,
    pub editor_index: int,
    pub custom_editor: Option<Seq<char>>,
}

/// Position `i` holds the first offered editor with this name.
pub open spec fn is_first_option(name: Seq<char>, i: int) -> bool {
    &&& 0 <= i < EDITOR_OPTION_COUNT
    &&& option_text(i) == name
    &&& forall|j: int| 0 <= j < i ==> #[trigger] option_text(j) != name
}

/// The name is none of the offered editors.
pub open spec fn is_custom(name: Seq<char>) -> bool {
    forall|j: int| 0 <= j < EDITOR_OPTION_COUNT ==> #[trigger] option_text(j) != name
}

/// The editor that is chosen, as the editor row shows it.
pub open spec fn editor_value_text(v: EditorView) -> Seq<char> {
    if v.editor_index < EDITOR_OPTION_COUNT {
        option_text(v.editor_index)
    } else {
        "custom: "@ + match v.custom_editor {
            Some(editor) => editor,
            None => Seq::empty(),
        }
    }
}

/// The settings that saving writes: the switches as they stand, and the
/// chosen editor, which for "custom" is the command entered, or the empty
/// command where none was.
pub open spec fn built_config(v: EditorView) -> ConfigView {
    ConfigView {
        editor: if v.editor_index < EDITOR_OPTION_COUNT {
            option_text(v.editor_index)
        } else {
            match v.custom_editor {
                Some(editor) => editor,
                None => Seq::empty(),
            }
        },
        ..v.config
    }
}

/// The editor after the choice of the editor moved one step through the
/// offered editors, "custom" after the last of them and before the first.
pub open spec fn editor_cycled(v: EditorView, forward: bool) -> EditorView {
    EditorView {
        editor_index: if forward {
            (v.editor_index + 1) % (EDITOR_OPTION_COUNT + 1)
        } else if v.editor_index == 0 {
            EDITOR_OPTION_COUNT as int
        } else {
            v.editor_index - 1
        },
        ..v
    }
}

/// The editor after the choice in the current row moved one step: the editor
/// row walks through the editors; each other row flips its switch.
pub open spec fn cycled(v: EditorView, forward: bool) -> EditorView {
    if v.selected_row == 0 {
        editor_cycled(v, forward)
    } else if v.selected_row == 1 {
        EditorView { config: ConfigView { cd_on_select: !v.config.cd_on_select, ..v.config }, ..v }
    } else if v.selected_row == 2 {
        EditorView {
            config: ConfigView { git_init_on_add: !v.config.git_init_on_add, ..v.config },
            ..v
        }
    } else {
        EditorView {
            config: ConfigView { gh_create_on_add: !v.config.gh_create_on_add, ..v.config },
            ..v
        }
    }
}

/// The editor after the cursor moved one row, from the last row to the first
/// and back.
pub open spec fn moved(v: EditorView, down: bool) -> EditorView {
    EditorView {
        selected_row: if down {
            (v.selected_row + 1) % (ROW_COUNT as int)
        } else if v.selected_row == 0 {
            ROW_COUNT - 1
        } else {
            v.selected_row - 1
        },
        ..v
    }
}

/// A step forward and a step back cancel each other, for the cursor and for
/// the choice in its row; the cursor is back after as many steps as there are
/// rows.
pub proof fn lemma_steps_cancel(v: EditorView)
    requires
        0 <= v.selected_row < ROW_COUNT,
        0 <= v.editor_index <= EDITOR_OPTION_COUNT,
    ensures
        moved(moved(v, true), false) == v,
        moved(moved(v, false), true) == v,
        cycled(cycled(v, true), false) == v,
        cycled(cycled(v, false), true) == v,
        moved(moved(moved(moved(v, true), true), true), true) == v,
{
}

/// A key that the settings editor reacts to; `Other` stands for every other key.
#[derive(Debug, Clone, Copy, PartialEq, Eq, Structural)]
pub enum Key {
    Esc,
    Enter,
    Up,
    Down,
    Left,
    Right,
    Tab,
    Other,
}

/// What the caller does after a key.
#[derive(Debug, PartialEq, Eq)]
pub enum EditorAction {
    /// The editor is shown again and the next key awaited.
    Continue,
    /// The editor is left and nothing saved.
    Cancel,
    /// The editor is left and these settings saved.
    Save(Config),
    /// The user is asked for the command of a custom editor, which is handed
    /// to `set_custom_editor`; then as for `Continue`.
    PromptCustom,
}

/// What the caller does after a key, as plain mathematical values.
pub enum ActionView {
    Continue,
    Cancel,
    Save(ConfigView),
    PromptCustom,
}

impl View for EditorAction {
    type V = ActionView;

    open spec fn view(&self) -> ActionView {
        match self {
            EditorAction::Continue => ActionView::Continue,
            EditorAction::Cancel => ActionView::Cancel,
            EditorAction::Save(config) => ActionView::Save(config@),
            EditorAction::PromptCustom => ActionView::PromptCustom,
        }
    }
}

/// The editor after a key.
pub open spec fn after_key(v: EditorView, key: Key) -> EditorView {
    match key {
        Key::Up => moved(v, false),
        Key::Down => moved(v, true),
        Key::Left => cycled(v, false),
        Key::Right => cycled(v, true),
        Key::Tab => cycled(v, true),
        _ => v,
    }
}

/// What the caller does after a key. Enter saves, except on the editor row
/// with "custom" chosen, where it asks for the command.
pub open spec fn action_for(v: EditorView, key: Key) -> ActionView {
    match key {
        Key::Esc => ActionView::Cancel,
        Key::Enter => if v.selected_row == 0 && v.editor_index >= EDITOR_OPTION_COUNT {
            ActionView::PromptCustom
        } else {
            ActionView::Save(built_config(v))
        },
        _ => ActionView::Continue,
    }
}

/// The editor after the user answered the question for a custom command:
/// the answer without the whitespace around it is the command, unless
/// nothing is left of it, in which case nothing changes.
pub open spec fn with_custom(v: EditorView, input: Seq<char>) -> EditorView {
    if trimmed(input).len() == 0 {
        v
    } else {
        EditorView { custom_editor: Some(trimmed(input)), ..v }
    }
}

/// The value that row `i` shows.
pub open spec fn row_value(v: EditorView, i: int) -> Seq<char> {
    if i == 0 {
        editor_value_text(v)
    } else if i == 1 {
        bool_text(v.config.cd_on_select)
    } else if i == 2 {
        bool_text(v.config.git_init_on_add)
    } else {
        bool_text(v.config.gh_create_on_add)
    }
}

/// One row of the settings editor as it is drawn.
#[derive(Debug, PartialEq, Eq)]
pub struct RowText {
    /// The line of the screen that the row is drawn on.
    pub line: u16,
    /// Whether the cursor is on the row.
    pub selected: bool,
    /// What stands before the name: an arrow on the cursor's row, else blanks.
    pub marker: String,
    /// The name of the setting, filled up to the width of the column.
    pub name: String,
    /// The value, between angle brackets on the cursor's row, else between blanks.
    pub value: String,
}

/// One row of the settings editor as it is drawn, as plain mathematical values.
pub struct RowTextView {
    pub line: int,
    pub selected: bool,
    pub marker: Seq<char>,
    pub name: Seq<char>,
    pub value: Seq<char>,
}

impl View for RowText {
    type V = RowTextView;

    open spec fn view(&self) -> RowTextView {
        RowTextView {
            line: self.line as int,
            selected: self.selected,
            marker: self.marker@,
            name: self.name@,
            value: self.value@,
        }
    }
}

/// Row `i` as it is drawn: rows follow the heading and an empty line.
pub open spec fn drawn_row(v: EditorView, i: int) -> RowTextView {
    let selected = i == v.selected_row;
    RowTextView {
        line: i + 2,
        selected,
        marker: if selected {
            "> "@
        } else {
            "  "@
        },
        name: padded(row_name(i), NAME_WIDTH as nat),
        value: if selected {
            "< "@ + row_value(v, i) + " >"@
        } else {
            "  "@ + row_value(v, i) + "  "@
        },
    }
}

impl View for ConfigEditor {
    type V = EditorView;

    closed spec fn view(&self) -> EditorView {
        EditorView {
            config: self.config@,
            selected_row: self.selected_row as int,
            editor_index: self.editor_index as int,
            custom_editor: match self.custom_editor {
                Some(editor) => Some(editor@),
                None => None,
            },
        }
    }
}

impl ConfigEditor {
    #[verifier::type_invariant]
    spec fn in_range(self) -> bool {
        self.selected_row < ROW_COUNT && self.editor_index <= EDITOR_OPTION_COUNT
    }

    /// An editor for the settings, the cursor on the first row. Where the
    /// configured editor is none of those offered, "custom" is chosen and
    /// holds it.
    pub fn new(config: Config) -> (e: ConfigEditor)
        ensures
            e@.config == config@,
            e@.selected_row == 0,
            is_custom(config@.editor) ==> e@.editor_index == EDITOR_OPTION_COUNT
                && e@.custom_editor == Some(config@.editor),
            !is_custom(config@.editor) ==> is_first_option(config@.editor, e@.editor_index)
                && e@.custom_editor is None,
    {
        let mut i: usize = 0;
        while i < EDITOR_OPTION_COUNT
            invariant
                i <= EDITOR_OPTION_COUNT,
                forall|j: int| 0 <= j < i ==> #[trigger] option_text(j) != config@.editor,
            decreases EDITOR_OPTION_COUNT - i,
        {
            if same_text(editor_option(i), config.editor.as_str()) {
                return ConfigEditor {
                    config,
                    selected_row: 0,
                    editor_index: i,
                    custom_editor: None,
                };
            }
            i += 1;
        }
        let custom = config.editor.clone();
        ConfigEditor {
            config,
            selected_row: 0,
            editor_index: EDITOR_OPTION_COUNT,
            custom_editor: Some(custom),
        }
    }

    /// The settings as they stand.
    pub fn config(&self) -> (c: &Config)
        ensures
            c@ == self@.config,
    {
        &self.config
    }

    /// The row that the cursor is on.
    pub fn selected_row(&self) -> (row: usize)
        ensures
            row == self@.selected_row,
            row < ROW_COUNT,
    {
        proof {
            use_type_invariant(self);
        }
        self.selected_row
    }

    /// The position of the chosen editor; `EDITOR_OPTION_COUNT` stands for "custom".
    pub fn editor_index(&self) -> (index: usize)
        ensures
            index == self@.editor_index,
            index <= EDITOR_OPTION_COUNT,
    {
        proof {
            use_type_invariant(self);
        }
        self.editor_index
    }

    /// Moves the choice of the editor one step, forward or back.
    pub fn cycle_editor(&mut self, forward: bool)
        ensures
            final(self)@ == editor_cycled(old(self)@, forward),
    {
        proof {
            use_type_invariant(&*self);
        }
        if forward {
            self.editor_index = (self.editor_index + 1) % (EDITOR_OPTION_COUNT + 1);
        } else if self.editor_index == 0 {
            self.editor_index = EDITOR_OPTION_COUNT;
        } else {
            self.editor_index = self.editor_index - 1;
        }
    }

    /// Moves the choice in the row that the cursor is on one step.
    pub fn cycle_current(&mut self, forward: bool)
        ensures
            final(self)@ == cycled(old(self)@, forward),
    {
        proof {
            use_type_invariant(&*self);
        }
        if self.selected_row == 0 {
            self.cycle_editor(forward);
        } else if self.selected_row == 1 {
            self.config.cd_on_select = !self.config.cd_on_select;
        } else if self.selected_row == 2 {
            self.config.git_init_on_add = !self.config.git_init_on_add;
        } else {
            self.config.gh_create_on_add = !self.config.gh_create_on_add;
        }
    }

    /// Moves the cursor one row down or up.
    pub fn move_selection(&mut self, down: bool)
        ensures
            final(self)@ == moved(old(self)@, down),
    {
        proof {
            use_type_invariant(&*self);
        }
        if down {
            self.selected_row = (self.selected_row + 1) % ROW_COUNT;
        } else if self.selected_row == 0 {
            self.selected_row = ROW_COUNT - 1;
        } else {
            self.selected_row = self.selected_row - 1;
        }
    }

    /// The chosen editor as the editor row shows it.
    pub fn format_editor_value(&self) -> (r: String)
        ensures
            r@ == editor_value_text(self@),
    {
        if self.editor_index < EDITOR_OPTION_COUNT {
            editor_option(self.editor_index).to_owned()
        } else {
            let mut r = "custom: ".to_owned();
            match &self.custom_editor {
                Some(editor) => {
                    r.append(editor.as_str());
                },
                None => {
                    assert(r@ + Seq::<char>::empty() == r@);
                },
            }
            r
        }
    }

    /// The settings that saving writes.
    pub fn build_config(&self) -> (c: Config)
        ensures
            c@ == built_config(self@),
    {
        let editor = if self.editor_index < EDITOR_OPTION_COUNT {
            editor_option(self.editor_index).to_owned()
        } else {
            match &self.custom_editor {
                Some(editor) => editor.clone(),
                None => String::new(),
            }
        };
        Config {
            editor,
            cd_on_select: self.config.cd_on_select,
            git_init_on_add: self.config.git_init_on_add,
            gh_create_on_add: self.config.gh_create_on_add,
        }
    }

    /// The command of the custom editor, where one was configured or entered.
    pub fn custom_editor(&self) -> (r: Option<&String>)
        ensures
            match self@.custom_editor {
                Some(editor) => r matches Some(e) && e@ == editor,
                None => r is None,
            },
    {
        self.custom_editor.as_ref()
    }

    /// Reacts to a key and says what the caller does next.
    pub fn handle_key(&mut self, key: Key) -> (action: EditorAction)
        ensures
            final(self)@ == after_key(old(self)@, key),
            action@ == action_for(old(self)@, key),
    {
        match key {
            Key::Esc => EditorAction::Cancel,
            Key::Enter => {
                if self.selected_row == 0 && self.editor_index >= EDITOR_OPTION_COUNT {
                    EditorAction::PromptCustom
                } else {
                    EditorAction::Save(self.build_config())
                }
            },
            Key::Up => {
                self.move_selection(false);
                EditorAction::Continue
            },
            Key::Down => {
                self.move_selection(true);
                EditorAction::Continue
            },
            Key::Left => {
                self.cycle_current(false);
                EditorAction::Continue
            },
            Key::Right => {
                self.cycle_current(true);
                EditorAction::Continue
            },
            Key::Tab => {
                self.cycle_current(true);
                EditorAction::Continue
            },
            Key::Other => EditorAction::Continue,
        }
    }

    /// Takes the user's answer to the question for a custom command.
    pub fn set_custom_editor(&mut self, input: &str)
        ensures
            final(self)@ == with_custom(old(self)@, input@),
    {
        proof {
            use_type_invariant(&*self);
        }
        let command = trim(input);
        if !command.as_str().is_empty() {
            self.custom_editor = Some(command);
        }
    }

    fn value_of_row(&self, i: usize) -> (r: String)
        requires
            i < ROW_COUNT,
        ensures
            r@ == row_value(self@, i as int),
    {
        if i == 0 {
            self.format_editor_value()
        } else if i == 1 {
            bool_to_text(self.config.cd_on_select)
        } else if i == 2 {
            bool_to_text(self.config.git_init_on_add)
        } else {
            bool_to_text(self.config.gh_create_on_add)
        }
    }

    /// The rows of the editor as they are drawn, from the top.
    pub fn render_rows(&self) -> (rows: Vec<RowText>)
        ensures
            rows.len() == ROW_COUNT,
            forall|i: int| 0 <= i < ROW_COUNT ==> (#[trigger] rows@[i])@ == drawn_row(self@, i),
    {
        let mut rows: Vec<RowText> = Vec::new();
        let mut i: usize = 0;
        while i < ROW_COUNT
            invariant
                i <= ROW_COUNT,
                rows.len() == i,
                forall|j: int| 0 <= j < i ==> (#[trigger] rows@[j])@ == drawn_row(self@, j),
            decreases ROW_COUNT - i,
        {
            let selected = i == self.selected_row;
            let name = if i == 0 {
                "editor"
            } else if i == 1 {
                "cd_on_select"
            } else if i == 2 {
                "git_init_on_add"
            } else {
                "gh_create_on_add"
            };
            let shown = self.value_of_row(i);
            let mut value = if selected {
                "< ".to_owned()
            } else {
                "  ".to_owned()
            };
            value.append(shown.as_str());
            value.append(if selected {
                " >"
            } else {
                "  "
            });
            rows.push(
                RowText {
                    line: (i + 2) as u16,
                    selected,
                    marker: if selected {
                        "> ".to_owned()
                    } else {
                        "  ".to_owned()
                    },
                    name: pad_right(name, NAME_WIDTH),
                    value,
                },
            );
            i += 1;
        }
        rows
    }
}

} // verus!
