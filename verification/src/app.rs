//! The screen state machine: the two list screens, the application state,
//! and the dispatcher that turns one input event into the next state.

use vstd::prelude::*;

use crate::ledger::{ledger_wf, totals_of, Ledger};
use crate::record::{Record, RecordV};
use crate::select::{cursor_next, cursor_prev, ListView, SelectableList, W};

verus! {

/// The keys the dispatcher can tell apart; every other key is `Other`.
#[derive(Clone, Copy, Debug, PartialEq, Eq, Structural)]
pub enum KeyCode {
    Char(char),
    Up,
    Down,
    Other,
}

/// Whether a key went down, repeated, or came back up.
#[derive(Clone, Copy, Debug, PartialEq, Eq, Structural)]
pub enum KeyEventKind {
    Press,
    Repeat,
    Release,
}

/// One decoded keyboard event.
#[derive(Clone, Copy, Debug, PartialEq, Eq, Structural)]
pub struct KeyEvent {
    pub code: KeyCode,
    pub no_modifiers: bool,
    pub kind: KeyEventKind,
}

/// One event from the input boundary.  Everything that is not a key event
/// (mouse, resize, paste, focus) arrives as `Other` and is ignored.
#[derive(Clone, Copy, Debug, PartialEq, Eq, Structural)]
pub enum InputEvent {
    Key(KeyEvent),
    Other,
}

/// The event is a plain press of exactly this key: no modifier held, not a
/// repeat, not a release.
pub open spec fn key_only_spec(k: KeyEvent, code: KeyCode) -> bool {
    k.code == code && k.no_modifiers && k.kind is Press
}

impl W<KeyEvent> {
    /// Whether the wrapped event is a plain press of `key_code`.
    pub fn key_only(&self, key_code: KeyCode) -> (r: bool)
        ensures
            r == key_only_spec(self.0, key_code),
    {
        let KeyEvent { code, no_modifiers, kind } = self.0;
        code == key_code && no_modifiers && matches!(kind, KeyEventKind::Press)
    }
}

/// The aggregation entries as a total-list screen stores them.
pub open spec fn totals_items(l: Seq<RecordV>) -> Seq<(Seq<char>, i64)> {
    totals_of(l).map_values(|p: (Seq<char>, int)| (p.0, p.1 as i64))
}

/// The list a fresh record screen shows: a snapshot of the whole ledger,
/// no selection.
pub open spec fn fresh_record_list(l: Seq<RecordV>) -> ListView<RecordV> {
    ListView { items: l, title: Some("Entries"@), cursor: None }
}

/// The list a fresh total screen shows: the aggregation of the whole
/// ledger, no selection.
pub open spec fn fresh_total_list(l: Seq<RecordV>) -> ListView<(Seq<char>, i64)> {
    ListView { items: totals_items(l), title: Some("Totals"@), cursor: None }
}

/// Mathematical value of a screen.
pub ghost enum ScreenV {
    RecordListV(ListView<RecordV>),
    TotalListV(ListView<(Seq<char>, i64)>),
    AddEntryV,
}

/// Mathematical value of the whole application state.
pub ghost struct AppStateV {
    pub screen: ScreenV,
    pub ledger: Seq<RecordV>,
    pub quit: bool,
}

/// A well-formed state: a well-formed ledger and a well-formed screen list.
pub open spec fn state_wf(s: AppStateV) -> bool {
    &&& ledger_wf(s.ledger)
    &&& match s.screen {
        ScreenV::RecordListV(v) => v.wf(),
        ScreenV::TotalListV(v) => v.wf(),
        ScreenV::AddEntryV => true,
    }
}

/// The transition taken from the record screen: `q` quits, `t` switches to a
/// fresh total screen, Down and Up move the cursor circularly, and anything
/// else — any other key, any modified or non-press event — changes nothing.
pub open spec fn step_record_list(s: AppStateV, list: ListView<RecordV>, e: InputEvent) -> AppStateV {
    match e {
        InputEvent::Key(k) => {
            if key_only_spec(k, KeyCode::Char('q')) {
                AppStateV { screen: s.screen, ledger: s.ledger, quit: true }
            } else if key_only_spec(k, KeyCode::Char('t')) {
                AppStateV {
                    screen: ScreenV::TotalListV(fresh_total_list(s.ledger)),
                    ledger: s.ledger,
                    quit: s.quit,
                }
            } else if key_only_spec(k, KeyCode::Down) {
                AppStateV {
                    screen: ScreenV::RecordListV(
                        ListView {
                            items: list.items,
                            title: list.title,
                            cursor: cursor_next(list.cursor, list.items.len() as int),
                        },
                    ),
                    ledger: s.ledger,
                    quit: s.quit,
                }
            } else if key_only_spec(k, KeyCode::Up) {
                AppStateV {
                    screen: ScreenV::RecordListV(
                        ListView {
                            items: list.items,
                            title: list.title,
                            cursor: cursor_prev(list.cursor, list.items.len() as int),
                        },
                    ),
                    ledger: s.ledger,
                    quit: s.quit,
                }
            } else {
                s
            }
        },
        InputEvent::Other => s,
    }
}

/// The transition taken from the total screen: `q` quits, `a` switches to a
/// fresh record screen, Down and Up move the cursor circularly, and anything
/// else changes nothing.
pub open spec fn step_total_list(
    s: AppStateV,
    list: ListView<(Seq<char>, i64)>,
    e: InputEvent,
) -> AppStateV {
    match e {
        InputEvent::Key(k) => {
            if key_only_spec(k, KeyCode::Char('q')) {
                AppStateV { screen: s.screen, ledger: s.ledger, quit: true }
            } else if key_only_spec(k, KeyCode::Char('a')) {
                AppStateV {
                    screen: ScreenV::RecordListV(fresh_record_list(s.ledger)),
                    ledger: s.ledger,
                    quit: s.quit,
                }
            } else if key_only_spec(k, KeyCode::Down) {
                AppStateV {
                    screen: ScreenV::TotalListV(
                        ListView {
                            items: list.items,
                            title: list.title,
                            cursor: cursor_next(list.cursor, list.items.len() as int),
                        },
                    ),
                    ledger: s.ledger,
                    quit: s.quit,
                }
            } else if key_only_spec(k, KeyCode::Up) {
                AppStateV {
                    screen: ScreenV::TotalListV(
                        ListView {
                            items: list.items,
                            title: list.title,
                            cursor: cursor_prev(list.cursor, list.items.len() as int),
                        },
                    ),
                    ledger: s.ledger,
                    quit: s.quit,
                }
            } else {
                s
            }
        },
        InputEvent::Other => s,
    }
}

/// The whole transition function of the dispatcher.  The ledger is never
/// touched; only the screen and the quit flag can change.
pub open spec fn step(s: AppStateV, e: InputEvent) -> AppStateV {
    match s.screen {
        ScreenV::RecordListV(list) => step_record_list(s, list, e),
        ScreenV::TotalListV(list) => step_total_list(s, list, e),
        ScreenV::AddEntryV => s,
    }
}

/// Law: no transition ever touches the ledger; only the screen and the quit
/// flag can change.
pub proof fn lemma_step_preserves_ledger(s: AppStateV, e: InputEvent)
    ensures
        step(s, e).ledger == s.ledger,
{
}

/// Law: every transition is total on well-formed states and keeps them
/// well-formed; in particular a moved cursor still points at an item.
pub proof fn lemma_step_preserves_wf(s: AppStateV, e: InputEvent)
    requires
        state_wf(s),
    ensures
        state_wf(step(s, e)),
{
    match s.screen {
        ScreenV::RecordListV(list) => {
            if list.items.len() > 0 {
                vstd::arithmetic::div_mod::lemma_mod_bound(
                    match list.cursor {
                        Some(i) => i + 1,
                        None => 0,
                    },
                    list.items.len() as int,
                );
                vstd::arithmetic::div_mod::lemma_mod_bound(
                    match list.cursor {
                        Some(i) => i - 1 + list.items.len(),
                        None => 0,
                    },
                    list.items.len() as int,
                );
            }
        },
        ScreenV::TotalListV(list) => {
            if list.items.len() > 0 {
                vstd::arithmetic::div_mod::lemma_mod_bound(
                    match list.cursor {
                        Some(i) => i + 1,
                        None => 0,
                    },
                    list.items.len() as int,
                );
                vstd::arithmetic::div_mod::lemma_mod_bound(
                    match list.cursor {
                        Some(i) => i - 1 + list.items.len(),
                        None => 0,
                    },
                    list.items.len() as int,
                );
            }
        },
        ScreenV::AddEntryV => {},
    }
}

/// Law: on either list screen, a plain press of `q` sets the quit flag and
/// leaves screen and ledger as they were, while a `q` press with a modifier
/// held changes nothing at all.
pub proof fn lemma_quit_key(s: AppStateV, k: KeyEvent)
    requires
        s.screen is RecordListV || s.screen is TotalListV,
        k.code == KeyCode::Char('q'),
    ensures
        k.no_modifiers && k.kind is Press ==> step(s, InputEvent::Key(k)) == (AppStateV {
            screen: s.screen,
            ledger: s.ledger,
            quit: true,
        }),
        !k.no_modifiers ==> step(s, InputEvent::Key(k)) == s,
{
}

/// Law: a key the active screen does not recognize changes nothing — the
/// screen (kind, items, title and cursor), the ledger and the quit flag all
/// stay as they were.
pub proof fn lemma_unrecognized_key_noop(s: AppStateV, k: KeyEvent)
    requires
        s.screen is RecordListV ==> k.code != KeyCode::Char('q') && k.code != KeyCode::Char('t')
            && k.code != KeyCode::Down && k.code != KeyCode::Up,
        s.screen is TotalListV ==> k.code != KeyCode::Char('q') && k.code != KeyCode::Char('a')
            && k.code != KeyCode::Down && k.code != KeyCode::Up,
    ensures
        step(s, InputEvent::Key(k)) == s,
{
}

/// Law: an event that is not a plain key press — a modified combination, a
/// repeat, a release, or a non-key event — changes nothing.
pub proof fn lemma_ignored_event_noop(s: AppStateV, e: InputEvent)
    requires
        match e {
            InputEvent::Key(k) => !k.no_modifiers || !(k.kind is Press),
            InputEvent::Other => true,
        },
    ensures
        step(s, e) == s,
{
}

/// Law: switching away from the record screen and back rebuilds it from the
/// ledger each time, so with no ledger mutation in between, doing it twice
/// yields record screens with identical items, and each fresh screen's
/// cursor is `None`.
pub proof fn lemma_switch_rebuilds_identically(s: AppStateV)
    requires
        s.screen is RecordListV,
    ensures
        ({
            let to_totals = InputEvent::Key(
                KeyEvent { code: KeyCode::Char('t'), no_modifiers: true, kind: KeyEventKind::Press },
            );
            let to_records = InputEvent::Key(
                KeyEvent { code: KeyCode::Char('a'), no_modifiers: true, kind: KeyEventKind::Press },
            );
            let s2 = step(step(s, to_totals), to_records);
            let s4 = step(step(s2, to_totals), to_records);
            &&& s2.screen == ScreenV::RecordListV(fresh_record_list(s.ledger))
            &&& s4.screen == s2.screen
            &&& fresh_record_list(s.ledger).cursor is None
            &&& fresh_total_list(s.ledger).cursor is None
        }),
{
}

/// The record screen: a snapshot of the ledger's records.
pub struct RecordList(SelectableList<Record>);

impl View for RecordList {
    type V = ListView<RecordV>;

    closed spec fn view(&self) -> ListView<RecordV> {
        self.0@
    }
}

impl RecordList {
    /// Wraps an already built list.
    pub fn new(list: SelectableList<Record>) -> (r: RecordList)
        ensures
            r@ == list@,
    {
        RecordList(list)
    }

    /// The wrapped list.
    pub fn list(&self) -> (r: &SelectableList<Record>)
        ensures
            r@ == self@,
    {
        &self.0
    }

    /// Hands the screen and the ledger to the handler that consumes the next
    /// event.
    pub fn get_event_handler(self, ledger: Ledger) -> (h: RecordListHandler)
        ensures
            h.list@ == self@,
            h.ledger@ == ledger@,
            h.quit == false,
    {
        RecordListHandler { ledger, list: self.0, quit: false }
    }
}

/// The total screen: the aggregation computed when the screen was built.
pub struct TotalList(SelectableList<(String, i64)>);

impl View for TotalList {
    type V = ListView<(Seq<char>, i64)>;

    closed spec fn view(&self) -> ListView<(Seq<char>, i64)> {
        self.0@
    }
}

impl TotalList {
    /// Wraps an already built list.
    pub fn new(list: SelectableList<(String, i64)>) -> (r: TotalList)
        ensures
            r@ == list@,
    {
        TotalList(list)
    }

    /// The wrapped list.
    pub fn list(&self) -> (r: &SelectableList<(String, i64)>)
        ensures
            r@ == self@,
    {
        &self.0
    }

    /// Hands the screen and the ledger to the handler that consumes the next
    /// event.
    pub fn get_event_handler(self, ledger: Ledger) -> (h: TotalListHandler)
        ensures
            h.list@ == self@,
            h.ledger@ == ledger@,
            h.quit == false,
    {
        TotalListHandler { ledger, list: self.0, quit: false }
    }
}

/// Which screen is active.
pub enum AppScreen {
    RecordList(RecordList),
    TotalList(TotalList),
    AddEntry,
}

impl View for AppScreen {
    type V = ScreenV;

    closed spec fn view(&self) -> ScreenV {
        match self {
            AppScreen::RecordList(list) => ScreenV::RecordListV(list@),
            AppScreen::TotalList(list) => ScreenV::TotalListV(list@),
            AppScreen::AddEntry => ScreenV::AddEntryV,
        }
    }
}

impl AppScreen {
    /// A fresh total screen built from the ledger as it now stands.
    pub fn new_total_screen(ledger: &Ledger) -> (r: AppScreen)
        requires
            ledger_wf(ledger@),
        ensures
            r@ == ScreenV::TotalListV(fresh_total_list(ledger@)),
    {
        let totals = ledger.totals();
        let selectable_list = SelectableList::new(totals).title("Totals");
        proof {
            assert(selectable_list@.items =~= totals_items(ledger@));
        }
        AppScreen::TotalList(TotalList(selectable_list))
    }

    /// A fresh record screen built from the ledger as it now stands.
    pub fn new_record_screen(ledger: &Ledger) -> (r: AppScreen)
        requires
            ledger_wf(ledger@),
        ensures
            r@ == ScreenV::RecordListV(fresh_record_list(ledger@)),
    {
        let entries = ledger.entries();
        let selectable_list = SelectableList::new(entries).title("Entries");
        proof {
            assert(selectable_list@.items =~= ledger@);
        }
        AppScreen::RecordList(RecordList(selectable_list))
    }
}

/// The unit of transition: one screen, the ledger, and the quit flag.
pub struct AppState {
    screen: AppScreen,
    ledger: Ledger,
    quit: bool,
}

impl View for AppState {
    type V = AppStateV;

    closed spec fn view(&self) -> AppStateV {
        AppStateV { screen: self.screen@, ledger: self.ledger@, quit: self.quit }
    }
}

impl AppState {
    /// The starting state: the given screen over the given ledger, not yet
    /// asked to quit.
    pub fn new(screen: AppScreen, ledger: Ledger) -> (r: AppState)
        ensures
            r@.screen == screen@,
            r@.ledger == ledger@,
            r@.quit == false,
    {
        AppState { screen, quit: false, ledger }
    }

    /// The active screen.
    pub fn screen(&self) -> (r: &AppScreen)
        ensures
            r@ == self@.screen,
    {
        &self.screen
    }

    /// Whether the outer loop should stop.
    pub fn quit(&self) -> (r: bool)
        ensures
            r == self@.quit,
    {
        self.quit
    }

    /// Asks the outer loop to stop.
    pub fn mark_quit(&mut self)
        ensures
            final(self)@.quit == true,
            final(self)@.screen == old(self)@.screen,
            final(self)@.ledger == old(self)@.ledger,
    {
        self.quit = true;
    }

    /// The ledger the state owns.
    pub fn ledger_ref(&self) -> (r: &Ledger)
        ensures
            r@ == self@.ledger,
    {
        &self.ledger
    }

    /// Consumes the state and produces its successor under one input event.
    /// The `AddEntry` screen is unimplemented by design: entering the
    /// dispatcher there is ruled out, and callers must fail loudly instead.
    pub fn handle(self, event: InputEvent) -> (r: AppState)
        requires
            !(self@.screen is AddEntryV),
            !self@.quit,
            state_wf(self@),
        ensures
            r@ == step(self@, event),
            state_wf(r@),
            !(r@.screen is AddEntryV),
    {
        let AppState { screen, ledger, quit: _ } = self;
        match screen {
            AppScreen::RecordList(rec_list) => rec_list.get_event_handler(ledger).handle(event),
            AppScreen::TotalList(total_list) => total_list.get_event_handler(ledger).handle(
                event,
            ),
            AppScreen::AddEntry => {
                proof {
                    assert(false);
                }
                unreached()
            },
        }
    }
}

/// Consumes one event on behalf of the record screen.
pub struct RecordListHandler {
    pub list: SelectableList<Record>,
    pub ledger: Ledger,
    pub quit: bool,
}

impl RecordListHandler {
    /// Applies the record-screen transition table and rebuilds the state.
    pub fn handle(self, event: InputEvent) -> (r: AppState)
        requires
            self.list@.wf(),
            ledger_wf(self.ledger@),
        ensures
            r@ == step_record_list(
                AppStateV {
                    screen: ScreenV::RecordListV(self.list@),
                    ledger: self.ledger@,
                    quit: self.quit,
                },
                self.list@,
                event,
            ),
            state_wf(r@),
            !(r@.screen is AddEntryV),
    {
        let RecordListHandler { mut list, ledger, mut quit } = self;
        let mut screen: Option<AppScreen> = None;
        match event {
            InputEvent::Key(key_event) => {
                let key_event = W(key_event);
                if key_event.key_only(KeyCode::Char('q')) {
                    quit = true;
                } else if key_event.key_only(KeyCode::Char('t')) {
                    screen = Some(AppScreen::new_total_screen(&ledger));
                } else if key_event.key_only(KeyCode::Down) {
                    let list_len = list.len();
                    list = list.next(list_len);
                } else if key_event.key_only(KeyCode::Up) {
                    let list_len = list.len();
                    list = list.prev(list_len);
                }
            },
            InputEvent::Other => {},
        }
        let screen = match screen {
            Some(s) => s,
            None => AppScreen::RecordList(RecordList(list)),
        };
        AppState { screen, ledger, quit }
    }
}

/// Consumes one event on behalf of the total screen.
pub struct TotalListHandler {
    pub list: SelectableList<(String, i64)>,
    pub ledger: Ledger,
    pub quit: bool,
}

impl TotalListHandler {
    /// Applies the total-screen transition table and rebuilds the state.
    pub fn handle(self, event: InputEvent) -> (r: AppState)
        requires
            self.list@.wf(),
            ledger_wf(self.ledger@),
        ensures
            r@ == step_total_list(
                AppStateV {
                    screen: ScreenV::TotalListV(self.list@),
                    ledger: self.ledger@,
                    quit: self.quit,
                },
                self.list@,
                event,
            ),
            state_wf(r@),
            !(r@.screen is AddEntryV),
    {
        let TotalListHandler { mut list, ledger, mut quit } = self;
        let mut screen: Option<AppScreen> = None;
        match event {
            InputEvent::Key(key_event) => {
                let key_event = W(key_event);
                if key_event.key_only(KeyCode::Char('q')) {
                    quit = true;
                } else if key_event.key_only(KeyCode::Char('a')) {
                    screen = Some(AppScreen::new_record_screen(&ledger));
                } else if key_event.key_only(KeyCode::Down) {
                    let list_len = list.len();
                    list = list.next(list_len);
                } else if key_event.key_only(KeyCode::Up) {
                    let list_len = list.len();
                    list = list.prev(list_len);
                }
            },
            InputEvent::Other => {},
        }
        let screen = match screen {
            Some(s) => s,
            None => AppScreen::TotalList(TotalList(list)),
        };
        AppState { screen, ledger, quit }
    }
}

} // verus!
