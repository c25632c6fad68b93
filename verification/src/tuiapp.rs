//! Terminal-dashboard control state: tabs, key bindings, symbol
//! selection, and the integrity badge rule.
//!
//! Rendering and terminal I/O live outside the core; this module holds
//! the decisions they display.

use vstd::prelude::*;

verus! {

/// The dashboard tabs.
#[derive(Debug, Clone, Copy, PartialEq, Eq, Structural)]
pub enum TuiTab {
    Market,
    Analytics,
    Integrity,
    Replay,
}

/// An operator action bound to a key.
#[derive(Debug, Clone, Copy, PartialEq, Eq, Structural)]
pub enum TuiAction {
    Quit,
    ToggleRecording,
    ExportIncident,
    InjectFault,
    ReplayLastIncident,
    AcknowledgeAlert,
    MoveSelectionUp,
    MoveSelectionDown,
    SwitchTabMarket,
    SwitchTabAnalytics,
    SwitchTabIntegrity,
    SwitchTabReplay,
    ToggleHelp,
}

/// A key press as the terminal layer hands it in.
#[derive(Debug, Clone, Copy, PartialEq, Eq, Structural)]
pub enum KeyInput {
    Printable(char),
    Up,
    Down,
    Esc,
}

/// The action a key press maps to, if any.
pub open spec fn spec_key_action(key: KeyInput) -> Option<TuiAction> {
    match key {
        KeyInput::Esc => Some(TuiAction::Quit),
        KeyInput::Up => Some(TuiAction::MoveSelectionUp),
        KeyInput::Down => Some(TuiAction::MoveSelectionDown),
        KeyInput::Printable(c) => {
            if c == 'q' {
                Some(TuiAction::Quit)
            } else if c == 'r' || c == 'R' {
                Some(TuiAction::ToggleRecording)
            } else if c == 'e' || c == 'E' {
                Some(TuiAction::ExportIncident)
            } else if c == 'd' || c == 'D' {
                Some(TuiAction::InjectFault)
            } else if c == 'p' || c == 'P' {
                Some(TuiAction::ReplayLastIncident)
            } else if c == 'a' || c == 'A' {
                Some(TuiAction::AcknowledgeAlert)
            } else if c == '1' {
                Some(TuiAction::SwitchTabMarket)
            } else if c == '2' {
                Some(TuiAction::SwitchTabAnalytics)
            } else if c == '3' {
                Some(TuiAction::SwitchTabIntegrity)
            } else if c == '4' {
                Some(TuiAction::SwitchTabReplay)
            } else if c == '?' || c == 'h' || c == 'H' {
                Some(TuiAction::ToggleHelp)
            } else {
                None
            }
        },
    }
}

/// Maps a key press to its dashboard action.
pub fn key_to_action(key: KeyInput) -> (r: Option<TuiAction>)
    ensures
        r == spec_key_action(key),
{
    match key {
        KeyInput::Esc => Some(TuiAction::Quit),
        KeyInput::Up => Some(TuiAction::MoveSelectionUp),
        KeyInput::Down => Some(TuiAction::MoveSelectionDown),
        KeyInput::Printable(c) => {
            if c == 'q' {
                Some(TuiAction::Quit)
            } else if c == 'r' || c == 'R' {
                Some(TuiAction::ToggleRecording)
            } else if c == 'e' || c == 'E' {
                Some(TuiAction::ExportIncident)
            } else if c == 'd' || c == 'D' {
                Some(TuiAction::InjectFault)
            } else if c == 'p' || c == 'P' {
                Some(TuiAction::ReplayLastIncident)
            } else if c == 'a' || c == 'A' {
                Some(TuiAction::AcknowledgeAlert)
            } else if c == '1' {
                Some(TuiAction::SwitchTabMarket)
            } else if c == '2' {
                Some(TuiAction::SwitchTabAnalytics)
            } else if c == '3' {
                Some(TuiAction::SwitchTabIntegrity)
            } else if c == '4' {
                Some(TuiAction::SwitchTabReplay)
            } else if c == '?' || c == 'h' || c == 'H' {
                Some(TuiAction::ToggleHelp)
            } else {
                None
            }
        },
    }
}

/// Dashboard control state.
#[derive(Debug)]
pub struct TuiApp {
    pub current_tab: TuiTab,
    pub recording_path: Option<String>,
    pub fault_injection_enabled: bool,
    pub alerts_acknowledged: bool,
    pub selected_symbol_index: usize,
    pub show_help: bool,
    pub export_notification: Option<(String, u64)>,
}

impl TuiApp {
    /// Fresh state, opening on the integrity tab.
    pub fn new(recording_path: Option<String>) -> (r: TuiApp)
        ensures
            r.current_tab == TuiTab::Integrity,
            r.recording_path == recording_path,
            !r.fault_injection_enabled,
            !r.alerts_acknowledged,
            r.selected_symbol_index == 0,
            !r.show_help,
            r.export_notification is None,
    {
        TuiApp {
            current_tab: TuiTab::Integrity,
            recording_path,
            fault_injection_enabled: false,
            alerts_acknowledged: false,
            selected_symbol_index: 0,
            show_help: false,
            export_notification: None,
        }
    }

    /// The selected symbol: the selection index wrapped around the list.
    pub fn get_selected_symbol(&self, symbols: &Vec<String>) -> (r: Option<String>)
        ensures
            match r {
                Some(s) => symbols@.len() > 0
                    && s@ == symbols@[(self.selected_symbol_index as int) % (symbols@.len() as int)]@,
                None => symbols@.len() == 0,
            },
    {
        if symbols.len() == 0 {
            None
        } else {
            let idx = self.selected_symbol_index % symbols.len();
            Some(symbols[idx].clone())
        }
    }

    /// Moves the selection up one entry, stopping at the top.
    pub fn move_selection_up(&mut self, symbols_len: usize)
        ensures
            final(self).selected_symbol_index as int == (if symbols_len > 0
                && old(self).selected_symbol_index > 0 {
                old(self).selected_symbol_index - 1
            } else {
                old(self).selected_symbol_index as int
            }),
            *final(self) == (TuiApp {
                selected_symbol_index: final(self).selected_symbol_index,
                ..*old(self)
            }),
    {
        if symbols_len > 0 && self.selected_symbol_index > 0 {
            self.selected_symbol_index = self.selected_symbol_index - 1;
        }
    }

    /// Moves the selection down one entry, wrapping around.
    pub fn move_selection_down(&mut self, symbols_len: usize)
        ensures
            final(self).selected_symbol_index == (if symbols_len > 0 {
                ((old(self).selected_symbol_index + 1) as int % (symbols_len as int)) as usize
            } else {
                old(self).selected_symbol_index
            }),
            *final(self) == (TuiApp {
                selected_symbol_index: final(self).selected_symbol_index,
                ..*old(self)
            }),
    {
        if symbols_len > 0 {
            let ghost oldidx = self.selected_symbol_index as int;
            let ghost n = symbols_len as int;
            if self.selected_symbol_index >= usize::MAX - 1 {
                self.selected_symbol_index = (self.selected_symbol_index % symbols_len + 1)
                    % symbols_len;
                proof {
                    let newidx = self.selected_symbol_index as int;
                    assert(newidx == (oldidx % n + 1) % n);
                    assert(newidx == (oldidx + 1) % n) by (nonlinear_arith)
                        requires
                            n > 0,
                            oldidx >= 0,
                            newidx == (oldidx % n + 1) % n,
                    ;
                }
            } else {
                self.selected_symbol_index = (self.selected_symbol_index + 1) % symbols_len;
            }
        }
    }

    /// Applies an action to the control state; the result says whether
    /// the dashboard should quit.
    pub fn handle_action(&mut self, action: TuiAction) -> (r: bool)
        ensures
            r == (action == TuiAction::Quit),
            final(self).alerts_acknowledged == (old(self).alerts_acknowledged
                || action == TuiAction::AcknowledgeAlert),
            final(self).current_tab == (if action == TuiAction::SwitchTabIntegrity {
                TuiTab::Integrity
            } else {
                old(self).current_tab
            }),
            final(self).show_help == (if action == TuiAction::ToggleHelp {
                !old(self).show_help
            } else {
                old(self).show_help
            }),
            final(self).recording_path == old(self).recording_path,
            final(self).fault_injection_enabled == old(self).fault_injection_enabled,
            final(self).selected_symbol_index == old(self).selected_symbol_index,
            final(self).export_notification == old(self).export_notification,
    {
        match action {
            TuiAction::Quit => true,
            TuiAction::AcknowledgeAlert => {
                self.alerts_acknowledged = true;
                false
            },
            TuiAction::SwitchTabIntegrity => {
                self.current_tab = TuiTab::Integrity;
                false
            },
            TuiAction::ToggleHelp => {
                self.show_help = !self.show_help;
                false
            },
            _ => false,
        }
    }
}

/// Integrity badge classification.
#[derive(Debug, Clone, Copy, PartialEq, Eq, Structural)]
pub enum IntegrityStatus {
    Verified,
    Degraded,
    Broken,
}

/// One row of the per-symbol integrity table.
#[derive(Debug, Clone)]
pub struct SymbolHealthRow {
    pub symbol: String,
    pub checksum_ok: u64,
    pub checksum_fail: u64,
    pub consecutive_fail: u64,
    pub last_mismatch: Option<String>,
    pub resync_count: u64,
    pub last_msg_age: Option<u64>,
}

/// A row shows an issue when its success rate is below 99.99 percent or
/// it has a running failure streak.
pub open spec fn row_has_issue(row: SymbolHealthRow) -> bool {
    10000 * row.checksum_ok < 9999 * (row.checksum_ok + row.checksum_fail)
        || row.consecutive_fail > 0
}

/// A row is broken after three consecutive failures.
pub open spec fn row_broken(row: SymbolHealthRow) -> bool {
    row.consecutive_fail >= 3
}

/// The badge for a set of rows: broken when disconnected or any row is
/// broken; degraded when no rows exist or any row shows an issue;
/// verified otherwise.
pub open spec fn spec_badge(connected: bool, rows: Seq<SymbolHealthRow>) -> IntegrityStatus {
    if !connected {
        IntegrityStatus::Broken
    } else if rows.len() == 0 {
        IntegrityStatus::Degraded
    } else if exists|i: int| 0 <= i < rows.len() && row_broken(#[trigger] rows[i]) {
        IntegrityStatus::Broken
    } else if exists|i: int| 0 <= i < rows.len() && row_has_issue(#[trigger] rows[i]) {
        IntegrityStatus::Degraded
    } else {
        IntegrityStatus::Verified
    }
}

/// Classifies the integrity badge and its display label.
pub fn integrity_badge_status(connected: bool, rows: &Vec<SymbolHealthRow>)
    -> (r: (IntegrityStatus, &'static str))
    ensures
        r.0 == spec_badge(connected, rows@),
        r.1@ == (match r.0 {
            IntegrityStatus::Verified => "VERIFIED"@,
            IntegrityStatus::Degraded => "DEGRADED"@,
            IntegrityStatus::Broken => "BROKEN"@,
        }),
{
    if !connected {
        return (IntegrityStatus::Broken, "BROKEN");
    }
    if rows.len() == 0 {
        return (IntegrityStatus::Degraded, "DEGRADED");
    }
    let mut has_issue = false;
    let mut has_broken = false;
    let mut i: usize = 0;
    while i < rows.len()
        invariant
            i <= rows@.len(),
            has_broken == exists|j: int| 0 <= j < i && row_broken(#[trigger] rows@[j]),
            has_issue == exists|j: int| 0 <= j < i && row_has_issue(#[trigger] rows@[j]),
        decreases rows@.len() - i,
    {
        let row = &rows[i];
        let total = (row.checksum_ok as u128) + (row.checksum_fail as u128);
        if 10000 * (row.checksum_ok as u128) < 9999 * total || row.consecutive_fail > 0 {
            assert(row_has_issue(rows@[i as int]));
            has_issue = true;
        }
        if row.consecutive_fail >= 3 {
            assert(row_broken(rows@[i as int]));
            has_broken = true;
        }
        i = i + 1;
    }
    if has_broken {
        (IntegrityStatus::Broken, "BROKEN")
    } else if has_issue {
        (IntegrityStatus::Degraded, "DEGRADED")
    } else {
        (IntegrityStatus::Verified, "VERIFIED")
    }
}

} // verus!
