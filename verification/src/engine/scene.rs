use vstd::prelude::*;

verus! {

/// The text of an optional string, as a sequence of characters.
pub open spec fn opt_text(o: Option<String>) -> Option<Seq<char>> {
    match o {
        Some(s) => Some(s@),
        None => None,
    }
}

/// One selectable option of a choice menu.
#[derive(Debug, Clone)]
pub struct ChoiceItem {
    pub text: String,
    pub target_label: Option<String>,
}

/// Abstract contents of a [`ChoiceItem`].
pub struct ChoiceView {
    pub text: Seq<char>,
    pub target_label: Option<Seq<char>>,
}

impl View for ChoiceItem {
    type V = ChoiceView;

    open spec fn view(&self) -> ChoiceView {
        ChoiceView { text: self.text@, target_label: opt_text(self.target_label) }
    }
}

/// One line of dialogue, with the scene attributes that come with it.
#[derive(Debug, Clone)]
pub struct DialogueLine {
    pub speaker: Option<String>,
    pub text: String,
    pub background: Option<String>,
    pub music: Option<String>,
    pub sound: Option<String>,
    pub choices: Vec<ChoiceItem>,
}

/// Abstract contents of a [`DialogueLine`].
pub struct DialogueView {
    pub speaker: Option<Seq<char>>,
    pub text: Seq<char>,
    pub background: Option<Seq<char>>,
    pub music: Option<Seq<char>>,
    pub sound: Option<Seq<char>>,
    pub choices: Seq<ChoiceView>,
}

impl View for DialogueLine {
    type V = DialogueView;

    open spec fn view(&self) -> DialogueView {
        DialogueView {
            speaker: opt_text(self.speaker),
            text: self.text@,
            background: opt_text(self.background),
            music: opt_text(self.music),
            sound: opt_text(self.sound),
            choices: self.choices@.map_values(|c: ChoiceItem| c@),
        }
    }
}

impl DialogueLine {
    /// A plain line: no background, music, sound or choices.
    pub fn new(speaker: Option<String>, text: String) -> (r: Self)
        ensures
            r.speaker == speaker,
            r.text == text,
            r.background is None,
            r.music is None,
            r.sound is None,
            r.choices@.len() == 0,
    {
        DialogueLine {
            speaker,
            text,
            background: None,
            music: None,
            sound: None,
            choices: Vec::new(),
        }
    }

    /// The same line with its background set.
    pub fn with_background(self, bg: String) -> (r: Self)
        ensures
            r == (DialogueLine { background: Some(bg), ..self }),
    {
        let mut s = self;
        s.background = Some(bg);
        s
    }

    /// The same line with its choices replaced.
    pub fn with_choices(self, choices: Vec<ChoiceItem>) -> (r: Self)
        ensures
            r == (DialogueLine { choices, ..self }),
    {
        let mut s = self;
        s.choices = choices;
        s
    }
}


/// What the screen is currently showing.
#[derive(Debug, Clone, PartialEq, Eq, Structural)]
pub enum SceneMode {
    TitleMenu,
    Dialogue,
    ChoiceMenu,
    Paused,
}

/// The mode that a line puts the scene in: a choice menu when it offers choices.
pub open spec fn mode_for(line: DialogueLine) -> SceneMode {
    if line.choices@.len() > 0 {
        SceneMode::ChoiceMenu
    } else {
        SceneMode::Dialogue
    }
}

/// Playback state of a loaded script.
pub struct SceneState {
    pub mode: SceneMode,
    pub lines: Vec<DialogueLine>,
    pub current_index: usize,
    pub current_background: Option<String>,
    pub ui_visible: bool,
    pub auto_mode: bool,
    pub skip_mode: bool,
    pub selected_choice: usize,
}

impl SceneState {
    /// The state after the attributes of line `idx` have been taken over:
    /// the choice cursor resets, the mode follows the line, and a line's
    /// background replaces the current one (a line without one keeps it).
    pub open spec fn entered(self, idx: usize) -> SceneState {
        if idx < self.lines@.len() {
            let line = self.lines@[idx as int];
            SceneState {
                current_index: idx,
                selected_choice: 0,
                mode: mode_for(line),
                current_background: match line.background {
                    Some(b) => Some(b),
                    None => self.current_background,
                },
                ..self
            }
        } else {
            SceneState { current_index: idx, selected_choice: 0, ..self }
        }
    }

    /// The state after a step forward, and whether there was a next line.
    pub open spec fn advanced(self) -> (SceneState, bool) {
        if self.current_index + 1 < self.lines@.len() {
            (self.entered((self.current_index + 1) as usize), true)
        } else {
            (self, false)
        }
    }

    /// The state after a step back, and whether there was a previous line.
    pub open spec fn rolled_back(self) -> (SceneState, bool) {
        if self.current_index > 0 {
            (self.entered((self.current_index - 1) as usize), true)
        } else {
            (self, false)
        }
    }

    /// The state with the choice cursor one entry up, where there is one.
    pub open spec fn cursor_up(self) -> SceneState {
        if self.in_choices() && self.selected_choice > 0 {
            SceneState { selected_choice: (self.selected_choice - 1) as usize, ..self }
        } else {
            self
        }
    }

    /// The state with the choice cursor one entry down, where there is one.
    pub open spec fn cursor_down(self) -> SceneState {
        if self.in_choices() && self.selected_choice + 1 < self.choice_count() {
            SceneState { selected_choice: (self.selected_choice + 1) as usize, ..self }
        } else {
            self
        }
    }

    /// Mode and choice cursor agree with the current line, which exists.
    pub open spec fn on_line(self) -> bool {
        &&& self.current_index < self.lines@.len()
        &&& self.mode == mode_for(self.lines@[self.current_index as int])
        &&& (self.lines@[self.current_index as int].choices@.len() > 0 ==> self.selected_choice
            < self.lines@[self.current_index as int].choices@.len())
    }

    /// A fresh state: dialogue mode, no lines, interface shown.
    pub fn new() -> (r: Self)
        ensures
            r.mode == SceneMode::Dialogue,
            r.lines@.len() == 0,
            r.current_index == 0,
            r.current_background is None,
            r.ui_visible,
            !r.auto_mode,
            !r.skip_mode,
            r.selected_choice == 0,
    {
        SceneState {
            mode: SceneMode::Dialogue,
            lines: Vec::new(),
            current_index: 0,
            current_background: None,
            ui_visible: true,
            auto_mode: false,
            skip_mode: false,
            selected_choice: 0,
        }
    }

    /// Replace the script and go to its first line.
    pub fn load_lines(&mut self, lines: Vec<DialogueLine>)
        ensures
            *final(self) == (SceneState { lines, ..*old(self) }).entered(0),
            lines@.len() > 0 ==> final(self).on_line(),
    {
        self.lines = lines;
        self.current_index = 0;
        self.update_current_attributes();
    }

    /// The line being shown, if the index points into the script.
    pub fn current_line(&self) -> (r: Option<&DialogueLine>)
        ensures
            r == (if self.current_index < self.lines@.len() {
                Some(&self.lines@[self.current_index as int])
            } else {
                None
            }),
    {
        if self.current_index < self.lines.len() {
            Some(&self.lines[self.current_index])
        } else {
            None
        }
    }

    /// Move to the next line; false, and nothing changes, at the last line.
    pub fn advance(&mut self) -> (moved: bool)
        requires
            old(self).current_index < usize::MAX,
        ensures
            (*final(self), moved) == old(self).advanced(),
            moved ==> final(self).on_line(),
    {
        if self.current_index + 1 < self.lines.len() {
            self.current_index += 1;
            self.update_current_attributes();
            true
        } else {
            false
        }
    }

    /// Move to the previous line; false, and nothing changes, at the first.
    pub fn rollback(&mut self) -> (moved: bool)
        ensures
            (*final(self), moved) == old(self).rolled_back(),
            moved && old(self).current_index <= old(self).lines@.len() ==> final(self).on_line(),
    {
        if self.current_index > 0 {
            self.current_index -= 1;
            self.update_current_attributes();
            true
        } else {
            false
        }
    }

    /// The state with the interface shown if it was hidden, and hidden if shown.
    pub open spec fn toggled_ui(self) -> SceneState {
        SceneState { ui_visible: !self.ui_visible, ..self }
    }

    /// The state with auto-advance switched; switching it on stops skipping.
    pub open spec fn toggled_auto(self) -> SceneState {
        SceneState {
            auto_mode: !self.auto_mode,
            skip_mode: if !self.auto_mode {
                false
            } else {
                self.skip_mode
            },
            ..self
        }
    }

    /// The state with skipping switched; switching it on stops auto-advance.
    pub open spec fn toggled_skip(self) -> SceneState {
        SceneState {
            skip_mode: !self.skip_mode,
            auto_mode: if !self.skip_mode {
                false
            } else {
                self.auto_mode
            },
            ..self
        }
    }

    /// Whether the current line offers choices.
    pub open spec fn in_choices(self) -> bool {
        self.current_index < self.lines@.len() && self.lines@[self.current_index as int].choices@.len() > 0
    }

    /// The number of choices of the current line.
    pub open spec fn choice_count(self) -> int {
        self.lines@[self.current_index as int].choices@.len() as int
    }

    /// Show or hide the dialogue interface.
    pub fn toggle_ui(&mut self)
        ensures
            *final(self) == old(self).toggled_ui(),
    {
        self.ui_visible = !self.ui_visible;
    }

    /// Switch auto-advance; turning it on turns skipping off.
    pub fn toggle_auto(&mut self)
        ensures
            *final(self) == old(self).toggled_auto(),
    {
        self.auto_mode = !self.auto_mode;
        if self.auto_mode {
            self.skip_mode = false;
        }
    }

    /// Switch skipping; turning it on turns auto-advance off.
    pub fn toggle_skip(&mut self)
        ensures
            *final(self) == old(self).toggled_skip(),
    {
        self.skip_mode = !self.skip_mode;
        if self.skip_mode {
            self.auto_mode = false;
        }
    }

    /// Move the choice cursor up, when the current line offers choices.
    pub fn choice_up(&mut self)
        ensures
            *final(self) == old(self).cursor_up(),
            old(self).on_line() ==> final(self).on_line(),
    {
        let mut step = false;
        if let Some(line) = self.current_line() {
            if line.choices.len() > 0 && self.selected_choice > 0 {
                step = true;
            }
        }
        if step {
            self.selected_choice -= 1;
        }
    }

    /// Move the choice cursor down, when the current line offers choices.
    pub fn choice_down(&mut self)
        requires
            old(self).in_choices() ==> old(self).selected_choice < usize::MAX,
        ensures
            *final(self) == old(self).cursor_down(),
            old(self).on_line() ==> final(self).on_line(),
    {
        let mut step = false;
        if let Some(line) = self.current_line() {
            if line.choices.len() > 0 && self.selected_choice + 1 < line.choices.len() {
                step = true;
            }
        }
        if step {
            self.selected_choice += 1;
        }
    }

    /// Rolling back right after advancing returns to the same line, in the
    /// mode that line puts the scene in, with the script and the flags as
    /// they were.
    pub proof fn law_rollback_undoes_advance(s: SceneState)
        requires
            s.current_index < usize::MAX,
            s.advanced().1,
        ensures
            ({
                let (back, moved) = s.advanced().0.rolled_back();
                &&& moved
                &&& back.current_index == s.current_index
                &&& back.mode == mode_for(s.lines@[s.current_index as int])
                &&& back.selected_choice == 0
                &&& back.lines == s.lines
                &&& back.ui_visible == s.ui_visible
                &&& back.auto_mode == s.auto_mode
                &&& back.skip_mode == s.skip_mode
            }),
    {
    }

    /// Advancing right after rolling back returns to the same line, in the
    /// mode that line puts the scene in, with the script and the flags as
    /// they were.
    pub proof fn law_advance_undoes_rollback(s: SceneState)
        requires
            s.rolled_back().1,
            s.current_index < s.lines@.len(),
        ensures
            ({
                let (fwd, moved) = s.rolled_back().0.advanced();
                &&& moved
                &&& fwd.current_index == s.current_index
                &&& fwd.mode == mode_for(s.lines@[s.current_index as int])
                &&& fwd.selected_choice == 0
                &&& fwd.lines == s.lines
                &&& fwd.ui_visible == s.ui_visible
                &&& fwd.auto_mode == s.auto_mode
                &&& fwd.skip_mode == s.skip_mode
            }),
    {
    }

    /// Toggling the interface twice changes nothing.
    pub proof fn law_toggle_ui_twice(s: SceneState)
        ensures
            s.toggled_ui().toggled_ui() == s,
    {
    }

    /// After either toggle, auto-advance and skipping are never both on.
    pub proof fn law_auto_skip_exclusive(s: SceneState)
        ensures
            !(s.toggled_auto().auto_mode && s.toggled_auto().skip_mode),
            !(s.toggled_skip().auto_mode && s.toggled_skip().skip_mode),
    {
    }

    /// Toggling auto-advance twice from a state where it was off, or where
    /// skipping was off, changes nothing.
    pub proof fn law_toggle_auto_twice(s: SceneState)
        requires
            !s.auto_mode || !s.skip_mode,
        ensures
            s.auto_mode ==> s.toggled_auto().toggled_auto() == s,
            !s.auto_mode && !s.skip_mode ==> s.toggled_auto().toggled_auto() == s,
    {
    }

    /// Switching skipping flips it; switching it on turns auto-advance off,
    /// switching it off leaves auto-advance as it was; the script, the
    /// line, the mode, the background, the interface and the cursor stay.
    pub proof fn law_toggle_skip_effect(s: SceneState)
        ensures
            s.toggled_skip().skip_mode == !s.skip_mode,
            !s.skip_mode ==> !s.toggled_skip().auto_mode,
            s.skip_mode ==> s.toggled_skip().auto_mode == s.auto_mode,
            s.toggled_skip().lines == s.lines,
            s.toggled_skip().current_index == s.current_index,
            s.toggled_skip().mode == s.mode,
            s.toggled_skip().current_background == s.current_background,
            s.toggled_skip().ui_visible == s.ui_visible,
            s.toggled_skip().selected_choice == s.selected_choice,
    {
    }

    /// Switching auto-advance flips it; switching it on turns skipping off,
    /// switching it off leaves skipping as it was; the script, the line,
    /// the mode, the background, the interface and the cursor stay.
    pub proof fn law_toggle_auto_effect(s: SceneState)
        ensures
            s.toggled_auto().auto_mode == !s.auto_mode,
            !s.auto_mode ==> !s.toggled_auto().skip_mode,
            s.auto_mode ==> s.toggled_auto().skip_mode == s.skip_mode,
            s.toggled_auto().lines == s.lines,
            s.toggled_auto().current_index == s.current_index,
            s.toggled_auto().mode == s.mode,
            s.toggled_auto().current_background == s.current_background,
            s.toggled_auto().ui_visible == s.ui_visible,
            s.toggled_auto().selected_choice == s.selected_choice,
    {
    }

    /// Toggling skipping twice from a state where it was on, or where
    /// neither mode was on, changes nothing.
    pub proof fn law_toggle_skip_twice(s: SceneState)
        requires
            !s.auto_mode || !s.skip_mode,
        ensures
            s.skip_mode ==> s.toggled_skip().toggled_skip() == s,
            !s.auto_mode && !s.skip_mode ==> s.toggled_skip().toggled_skip() == s,
    {
    }

    /// The state after entering a line depends only on the line, the
    /// previous background and the flags: entering the same line twice is
    /// the same as entering it once.
    pub proof fn law_enter_idempotent(s: SceneState, idx: usize)
        ensures
            s.entered(idx).entered(idx) == s.entered(idx),
    {
    }

    fn update_current_attributes(&mut self)
        ensures
            *final(self) == old(self).entered(old(self).current_index),
    {
        self.selected_choice = 0;
        if self.current_index < self.lines.len() {
            let has_choices = self.lines[self.current_index].choices.len() > 0;
            if has_choices {
                self.mode = SceneMode::ChoiceMenu;
            } else {
                self.mode = SceneMode::Dialogue;
            }
            let bg = self.lines[self.current_index].background.clone();
            if let Some(b) = bg {
                self.current_background = Some(b);
            }
        }
    }
}

impl Default for SceneState {
    /// A fresh state, as `new` makes it.
    fn default() -> (r: Self)
        ensures
            r.mode == SceneMode::Dialogue,
            r.lines@.len() == 0,
            r.current_index == 0,
            r.current_background is None,
            r.ui_visible,
            !r.auto_mode,
            !r.skip_mode,
            r.selected_choice == 0,
    {
        Self::new()
    }
}

} // verus!
