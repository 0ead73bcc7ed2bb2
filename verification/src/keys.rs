//! What the keys do.

use crate::app::App;
use crate::filter::terms_of;
use crate::laws::{
    law_filtering_keeps_wf, law_incremental_search_is_exact, law_moving_keeps_wf,
};
use crate::state::{refined, AppState, ShareStatusView, ShareView};
use crate::text::Text;
use vstd::prelude::*;

verus! {

/// The keys that do something, and all the others.
pub enum Key {
    Esc,
    Up,
    Down,
    PageUp,
    PageDown,
    Home,
    End,
    Backspace,
    Enter,
    Char(char),
    Other,
}

/// What happened to a key.
pub enum KeyKind {
    Press,
    Repeat,
    Release,
}

/// An event of the keyboard.
pub struct KeyEvent {
    pub key: Key,
    pub kind: KeyKind,
    /// Whether the control key is held.
    pub control: bool,
}

/// The number of places that a page key moves the selection by.
pub const PAGE: i32 = 10;

/// `String::pop` removes the last character, if there is one, and returns it.
pub assume_specification[ String::pop ](s: &mut String) -> (r: Option<char>)
    ensures
        old(s)@.len() == 0 ==> final(s)@ == old(s)@ && r is None,
        old(s)@.len() > 0 ==> final(s)@ == old(s)@.drop_last() && r == Some(old(s)@.last()),
;

/// A filter without its last character.
pub open spec fn shortened(filter: Text) -> Text {
    if filter.len() == 0 {
        filter
    } else {
        filter.drop_last()
    }
}

/// What a key asks for beyond a change of the state.
pub enum ActionView {
    /// Nothing.
    Nothing,
    /// End the program.
    Quit,
    /// Send the book at this path.
    Share(Text),
    /// Stop sending.
    CancelShare,
}

/// What a key asks for beyond a change of the state.
pub enum KeyAction {
    /// Nothing.
    Nothing,
    /// End the program.
    Quit,
    /// Send the book at this path.
    Share(String),
    /// Stop sending.
    CancelShare,
}

impl View for KeyAction {
    type V = ActionView;

    open spec fn view(&self) -> ActionView {
        match *self {
            KeyAction::Nothing => ActionView::Nothing,
            KeyAction::Quit => ActionView::Quit,
            KeyAction::Share(path) => ActionView::Share(path@),
            KeyAction::CancelShare => ActionView::CancelShare,
        }
    }
}

/// What the event asks for. Control with `c` ends the program. While a book is
/// being sent the escape key stops that; otherwise it ends the program, and the
/// enter key has the selected book sent. Releasing a key asks for nothing.
pub open spec fn action(s: AppState, e: KeyEvent) -> ActionView {
    if e.kind is Release {
        ActionView::Nothing
    } else if e.key == Key::Char('c') && e.control {
        ActionView::Quit
    } else if s.sharing is Some {
        if e.key is Esc {
            ActionView::CancelShare
        } else {
            ActionView::Nothing
        }
    } else if e.key is Esc {
        ActionView::Quit
    } else if e.key is Enter {
        match s.selected_path() {
            Some(path) => ActionView::Share(path),
            None => ActionView::Nothing,
        }
    } else {
        ActionView::Nothing
    }
}

/// The state after an event. Releasing a key does nothing, nor does a key that
/// ends the program; while a book is being sent only the escape key does
/// something.
pub open spec fn after_key(s: AppState, e: KeyEvent) -> AppState {
    if e.kind is Release || action(s, e) is Quit {
        s
    } else if s.sharing is Some {
        if e.key is Esc {
            s.unshared()
        } else {
            s
        }
    } else {
        match e.key {
            Key::Up => s.moved(-1),
            Key::Down => s.moved(1),
            Key::PageUp => s.moved(-(PAGE as int)),
            Key::PageDown => s.moved(PAGE as int),
            Key::Home => s.at_first(),
            Key::End => s.at_last(),
            Key::Backspace => s.with_filter(shortened(s.filter)),
            Key::Char(c) => s.with_filter(s.filter.push(c)),
            Key::Enter => s.shared(),
            Key::Esc => s,
            Key::Other => s,
        }
    }
}

impl App {
    /// Does what the key event asks for. The result tells what is left to do
    /// outside.
    pub fn handle_key(&mut self, event: KeyEvent) -> (r: KeyAction)
        requires
            old(self)@.wf(),
        ensures
            r@ == action(old(self)@, event),
            final(self)@ == after_key(old(self)@, event),
            final(self)@.wf(),
    {
        match event.kind {
            KeyKind::Release => {
                return KeyAction::Nothing;
            },
            _ => {},
        }
        let control_c = match event.key {
            Key::Char(c) => c == 'c' && event.control,
            _ => false,
        };
        if control_c {
            return KeyAction::Quit;
        }
        if self.sharing().is_some() {
            match event.key {
                Key::Esc => {
                    self.end_share();
                    return KeyAction::CancelShare;
                },
                _ => {
                    return KeyAction::Nothing;
                },
            }
        }
        match event.key {
            Key::Esc => {
                return KeyAction::Quit;
            },
            Key::Up => self.move_selection(-1),
            Key::Down => self.move_selection(1),
            Key::PageUp => self.move_selection(-PAGE),
            Key::PageDown => self.move_selection(PAGE),
            Key::Home => self.select_first(),
            Key::End => self.select_last(),
            Key::Backspace => {
                let mut new = self.filter().clone();
                let _ = new.pop();
                self.set_filter(new);
            },
            Key::Char(c) => {
                let mut new = self.filter().clone();
                new.push(c);
                self.set_filter(new);
            },
            Key::Enter => {
                if let Some(path) = self.share_selected() {
                    return KeyAction::Share(path);
                }
            },
            Key::Other => {},
        }
        KeyAction::Nothing
    }
}

/// Whatever key is pressed, the state stays well formed: what is shown are
/// exactly the books that match the filter, and the selection lies in it.
pub proof fn law_keys_keep_wf(s: AppState, e: KeyEvent)
    requires
        s.wf(),
    ensures
        after_key(s, e).wf(),
{
    law_filtering_keeps_wf(s, shortened(s.filter));
    match e.key {
        Key::Char(c) => law_filtering_keeps_wf(s, s.filter.push(c)),
        _ => {},
    }
}

/// The enter key has the selected book sent, and the escape key then stops that
/// and brings the search back as it was, without ending the program.
pub proof fn law_escape_takes_enter_back(s: AppState, p: Text, enter: KeyEvent, escape: KeyEvent)
    requires
        s.sharing is None,
        s.selected_path() == Some(p),
        enter.key is Enter,
        enter.kind !is Release,
        escape.key is Esc,
        escape.kind !is Release,
    ensures
        action(s, enter) == ActionView::Share(p),
        after_key(s, enter).sharing == Some(
            ShareView { path: p, status: ShareStatusView::Starting },
        ),
        action(after_key(s, enter), escape) is CancelShare,
        after_key(after_key(s, enter), escape) == s,
{
}

/// Where the selection is after the keys that move it: up and down by one, the
/// page keys by ten, never beyond the ends, and at the very ends after the keys
/// home and end.
pub proof fn law_keys_move_the_selection(s: AppState, kind: KeyKind, control: bool, i: int)
    requires
        s.wf(),
        s.selected == Some(i),
        s.sharing is None,
        kind !is Release,
    ensures
        after_key(s, KeyEvent { key: Key::Up, kind, control }).selected == Some(
            if i > 0 {
                i - 1
            } else {
                0
            },
        ),
        after_key(s, KeyEvent { key: Key::Down, kind, control }).selected == Some(
            if i + 1 < s.shown().len() {
                i + 1
            } else {
                i
            },
        ),
        after_key(s, KeyEvent { key: Key::PageUp, kind, control }).selected == Some(
            if i > 10 {
                i - 10
            } else {
                0
            },
        ),
        after_key(s, KeyEvent { key: Key::PageDown, kind, control }).selected == Some(
            if i + 10 < s.shown().len() {
                i + 10
            } else {
                s.shown().len() - 1
            },
        ),
        after_key(s, KeyEvent { key: Key::Home, kind, control }).selected == Some(0int),
        after_key(s, KeyEvent { key: Key::End, kind, control }).selected == Some(
            s.shown().len() - 1,
        ),
{
    law_moving_keeps_wf(s, 1);
}

/// Every character that is typed is appended to the filter, a space as well as
/// any other, and asks for nothing else; only `c` with control held is not.
pub proof fn law_characters_are_appended(s: AppState, c: char, kind: KeyKind, control: bool)
    requires
        s.wf(),
        s.sharing is None,
        kind !is Release,
        c != 'c' || !control,
    ensures
        after_key(s, KeyEvent { key: Key::Char(c), kind, control }).filter == s.filter.push(c),
        after_key(s, KeyEvent { key: Key::Char(c), kind, control }).books == s.books,
        after_key(s, KeyEvent { key: Key::Char(c), kind, control }).sharing is None,
        after_key(s, KeyEvent { key: Key::Char(c), kind, control }).wf(),
        action(s, KeyEvent { key: Key::Char(c), kind, control }) is Nothing,
{
    law_filtering_keeps_wf(s, s.filter.push(c));
}

/// The backspace key takes the last character off the filter, and nothing where
/// there is none; typing that character again brings the filter back.
pub proof fn law_backspace_takes_the_last_character(s: AppState, kind: KeyKind, control: bool)
    requires
        s.wf(),
        s.sharing is None,
        kind !is Release,
    ensures
        s.filter.len() > 0 ==> after_key(
            s,
            KeyEvent { key: Key::Backspace, kind, control },
        ).filter.push(s.filter.last()) == s.filter,
        s.filter.len() == 0 ==> after_key(s, KeyEvent { key: Key::Backspace, kind, control }) == s,
        after_key(s, KeyEvent { key: Key::Backspace, kind, control }).books == s.books,
        action(s, KeyEvent { key: Key::Backspace, kind, control }) is Nothing,
{
    law_filtering_keeps_wf(s, shortened(s.filter));
    if s.filter.len() > 0 {
        assert(s.filter.drop_last().push(s.filter.last()) =~= s.filter);
    } else {
        assert(s.stack.last().filter == s.filter);
    }
}

/// The state after a text was typed character by character.
pub open spec fn after_typing(s: AppState, typed: Text) -> AppState
    decreases typed.len(),
{
    if typed.len() == 0 {
        s
    } else {
        after_key(
            after_typing(s, typed.drop_last()),
            KeyEvent { key: Key::Char(typed.last()), kind: KeyKind::Press, control: false },
        )
    }
}

/// Typing a text after the filter shows what the whole text is searched for.
pub proof fn law_typing_makes_the_filter(s: AppState, typed: Text)
    requires
        s.wf(),
        s.sharing is None,
    ensures
        after_typing(s, typed).filter == s.filter + typed,
        after_typing(s, typed).wf(),
        after_typing(s, typed).sharing is None,
        after_typing(s, typed).books == s.books,
        after_typing(s, typed).all_paths == s.all_paths,
        after_typing(s, typed).shown() == refined(
            s.books,
            s.all_paths,
            terms_of(s.filter + typed),
        ),
    decreases typed.len(),
{
    if typed.len() == 0 {
        assert(s.filter + typed =~= s.filter);
        assert(s.shown() == s.stack[s.stack.len() - 1].paths);
    } else {
        let t = after_typing(s, typed.drop_last());
        let c = typed.last();
        law_typing_makes_the_filter(s, typed.drop_last());
        law_characters_are_appended(t, c, KeyKind::Press, false);
        law_filtering_keeps_wf(t, t.filter.push(c));
        law_incremental_search_is_exact(t, t.filter.push(c));
        assert(t.filter.push(c) =~= s.filter + typed);
    }
}

/// The program ends with control and `c` at any time, and with the escape key
/// while no book is being sent, and with nothing else; nothing changes then.
pub proof fn law_program_ends_when_asked(s: AppState, e: KeyEvent)
    ensures
        action(s, e) is Quit <==> e.kind !is Release && ((e.key == Key::Char('c') && e.control) || (
        e.key is Esc && s.sharing is None)),
        action(s, e) is Quit ==> after_key(s, e) == s,
        e.kind is Release ==> after_key(s, e) == s && action(s, e) is Nothing,
        e.key is Other ==> after_key(s, e) == s && action(s, e) is Nothing,
{
}

/// The enter key has a book sent exactly where one is selected and none is
/// being sent; and while one is, no key but escape does anything.
pub proof fn law_one_book_is_sent_at_a_time(s: AppState, e: KeyEvent)
    ensures
        action(s, e) is Share <==> e.kind !is Release && e.key is Enter && s.sharing is None
            && s.selected_path() is Some,
        action(s, e) is Share ==> s.selected_path() == Some(action(s, e)->Share_0),
        action(s, e) is CancelShare <==> e.kind !is Release && e.key is Esc && s.sharing is Some,
        s.sharing is Some && e.key !is Esc ==> after_key(s, e) == s,
        e.key is Enter && s.selected_path() is None ==> after_key(s, e) == s,
{
}

} // verus!
