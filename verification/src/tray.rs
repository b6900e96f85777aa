//! The tray application's decisions: which rate applies, when a report is
//! sent, what the tooltip and the menu say, and what each menu command means.
//!
//! The window, the tray icon, the timer and the device handle live at the edge
//! of the program. It asks [`AppState`] what to do, performs it, and reports
//! back what happened.
use vstd::prelude::*;
use crate::config::{command_spec, menu_rates, Config};
use crate::text::{decimal, join, join_strings, push_decimal};

verus! {

broadcast use vstd::string::group_string_axioms;

/// A tray notification: a title and a body.
#[derive(Debug)]
pub struct Notice {
    pub title: String,
    pub body: String,
}

/// The view of a notice: its title and body.
pub open spec fn notice_view(n: Notice) -> (Seq<char>, Seq<char>) {
    (n.title@, n.body@)
}

fn notice(title: &str, body: &str) -> (n: Notice)
    ensures
        n.title@ == title@,
        n.body@ == body@,
{
    let mut t = String::new();
    t.append(title);
    let mut b = String::new();
    b.append(body);
    assert(t@ =~= title@);
    assert(b@ =~= body@);
    Notice { title: t, body: b }
}

/// `"{rate} Hz"`.
pub open spec fn rate_text(rate: u32) -> Seq<char> {
    decimal(rate as nat) + " Hz"@
}

fn push_rate(s: &mut String, rate: u32)
    ensures
        final(s)@ == old(s)@ + rate_text(rate),
{
    push_decimal(s, rate as u64);
    s.append(" Hz");
    assert(s@ =~= old(s)@ + rate_text(rate));
}

/// What the device needs next while a rate is being applied.
#[derive(Debug)]
pub enum RateStep {
    /// The rate is already in effect and nothing has failed: nothing to send.
    Unchanged,
    /// No device is open: open it, then call [`AppState::device_opened`].
    OpenDevice,
    /// Send these command bytes, then call [`AppState::report_sent`].
    Send(Vec<u8>),
    /// The rate could not be applied; the error is recorded and the tray
    /// should be updated.
    Failed,
}

/// The error recorded when the mouse cannot be opened.
pub open spec fn not_found_error() -> Seq<char> {
    "mouse not found, is the dongle plugged in?"@
}

/// The error recorded when the protocol has no command for a rate.
pub open spec fn no_command_error(rate: u32) -> Seq<char> {
    "no command for "@ + decimal(rate as nat) + " Hz on this mouse"@
}

/// The view of a recorded error.
pub open spec fn error_view(e: Option<String>) -> Option<Seq<char>> {
    match e {
        Some(s) => Some(s@),
        None => None,
    }
}

/// Whether applying `rate` in state `s` goes to the device: unless that rate
/// is already in effect with nothing failed since.
pub open spec fn resends(s: AppState, rate: u32) -> bool {
    !(s.current_rate == Some(rate) && s.device_error is None)
}

/// All runtime state that the decisions depend on.
pub struct AppState {
    pub config: Config,
    /// Whether a device handle is open.
    pub device_open: bool,
    /// Why the last attempt to apply a rate failed, until one succeeds.
    pub device_error: Option<String>,
    /// The rate last applied successfully.
    pub current_rate: Option<u32>,
    /// Whether automatic switching is paused.
    pub paused: bool,
    /// Whether the last scan found a listed program running.
    pub was_running: bool,
    /// Whether a listed program starting called for the rate being applied,
    /// so that applying it successfully is announced.
    pub announce: bool,
}

/// Whether two states agree on what the scans have seen and on a pending
/// announcement.
pub open spec fn same_watch(a: AppState, b: AppState) -> bool {
    a.was_running == b.was_running && a.announce == b.announce
}

/// Whether an announcement is pending after a scan that found `running`:
/// a listed program is running, the scan was not started by a manual action,
/// and either nothing was running at the scan before or an announcement was
/// already pending. An edge on whether anything runs, not a comparison of
/// rates.
pub open spec fn announce_after(s: AppState, running: bool, silent: bool) -> bool {
    running && !silent && (!s.was_running || s.announce)
}

impl AppState {
    /// A fresh state: no device open, nothing applied, not paused.
    pub fn new(config: Config) -> (s: Self)
        ensures
            s.config == config,
            !s.device_open,
            s.device_error is None,
            s.current_rate is None,
            !s.paused,
            !s.was_running,
            !s.announce,
    {
        AppState {
            config,
            device_open: false,
            device_error: None,
            current_rate: None,
            paused: false,
            was_running: false,
            announce: false,
        }
    }

    /// A scan found whether any listed program is running; returns the rate
    /// that applies. `silent` marks a scan started by a manual action (a menu
    /// choice, resuming, a reload, startup): those announce nothing, since you
    /// already know what you just clicked.
    pub fn observe(&mut self, running: bool, silent: bool) -> (r: u32)
        ensures
            r == (if running {
                old(self).config.settings.active_rate
            } else {
                old(self).config.settings.inactive_rate
            }),
            final(self).was_running == running,
            final(self).announce == announce_after(*old(self), running, silent),
            final(self).config == old(self).config,
            final(self).device_open == old(self).device_open,
            final(self).device_error == old(self).device_error,
            final(self).current_rate == old(self).current_rate,
            final(self).paused == old(self).paused,
    {
        self.announce = running && !silent && (!self.was_running || self.announce);
        self.was_running = running;
        self.desired_rate(running)
    }

    /// The active rate applies while any listed program is running, whether or
    /// not you are tabbed into it. Otherwise the inactive rate applies.
    pub fn desired_rate(&self, running: bool) -> (r: u32)
        ensures
            r == (if running {
                self.config.settings.active_rate
            } else {
                self.config.settings.inactive_rate
            }),
    {
        if running {
            self.config.settings.active_rate
        } else {
            self.config.settings.inactive_rate
        }
    }

    /// Whether a timer tick should scan the processes and apply a rate:
    /// not while switching is paused.
    pub fn evaluate(&self) -> (r: bool)
        ensures
            r == !self.paused,
    {
        !self.paused
    }

    /// With a device open: send the command for `rate`, or record that
    /// there is none.
    fn command_step(&mut self, rate: u32) -> (r: RateStep)
        ensures
            final(self).config == old(self).config,
            final(self).device_open == old(self).device_open,
            final(self).current_rate == old(self).current_rate,
            final(self).paused == old(self).paused,
            same_watch(*old(self), *final(self)),
            match command_spec(old(self).config.protocol.commands@, rate) {
                Some(b) => r matches RateStep::Send(v) && v@ == b && final(self).device_error
                    == old(self).device_error,
                None => r is Failed && error_view(final(self).device_error) == Some(
                    no_command_error(rate),
                ),
            },
    {
        match self.config.command_for(rate) {
            Some(bytes) => {
                let mut v: Vec<u8> = Vec::new();
                let mut i: usize = 0;
                while i < bytes.len()
                    invariant
                        i <= bytes@.len(),
                        v@ == bytes@.take(i as int),
                    decreases bytes@.len() - i,
                {
                    v.push(bytes[i]);
                    assert(v@ =~= bytes@.take(i + 1));
                    i = i + 1;
                }
                assert(bytes@.take(bytes@.len() as int) =~= bytes@);
                RateStep::Send(v)
            },
            None => {
                let mut m = String::new();
                m.append("no command for ");
                push_decimal(&mut m, rate as u64);
                m.append(" Hz on this mouse");
                assert(m@ =~= no_command_error(rate));
                self.device_error = Some(m);
                RateStep::Failed
            },
        }
    }

    /// Start applying `rate`. A report is only sent when the rate actually
    /// changes, or when the last attempt failed.
    pub fn set_rate(&mut self, rate: u32) -> (r: RateStep)
        ensures
            final(self).config == old(self).config,
            final(self).device_open == old(self).device_open,
            final(self).current_rate == old(self).current_rate,
            final(self).paused == old(self).paused,
            same_watch(*old(self), *final(self)),
            (r is Unchanged) ==> old(self).current_rate == Some(rate) && old(self).device_error is None,
            old(self).device_error is Some ==> !(r is Unchanged),
            old(self).current_rate != Some(rate) ==> !(r is Unchanged),
            if !resends(*old(self), rate) {
                r is Unchanged && final(self).device_error == old(self).device_error
            } else if !old(self).device_open {
                r is OpenDevice && final(self).device_error == old(self).device_error
            } else {
                match command_spec(old(self).config.protocol.commands@, rate) {
                    Some(b) => r matches RateStep::Send(v) && v@ == b && final(self).device_error
                        == old(self).device_error,
                    None => r is Failed && error_view(final(self).device_error) == Some(
                        no_command_error(rate),
                    ),
                }
            },
    {
        proof {
            lemma_resend_after_failure_or_change(*self, rate);
        }
        if self.current_rate == Some(rate) && self.device_error.is_none() {
            return RateStep::Unchanged;
        }
        if !self.device_open {
            return RateStep::OpenDevice;
        }
        self.command_step(rate)
    }

    /// The device was opened, or could not be, while applying `rate`.
    pub fn device_opened(&mut self, rate: u32, opened: bool) -> (r: RateStep)
        ensures
            final(self).config == old(self).config,
            final(self).device_open == opened,
            final(self).current_rate == old(self).current_rate,
            final(self).paused == old(self).paused,
            same_watch(*old(self), *final(self)),
            if !opened {
                r is Failed && error_view(final(self).device_error) == Some(not_found_error())
            } else {
                match command_spec(old(self).config.protocol.commands@, rate) {
                    Some(b) => r matches RateStep::Send(v) && v@ == b && final(self).device_error
                        == old(self).device_error,
                    None => r is Failed && error_view(final(self).device_error) == Some(
                        no_command_error(rate),
                    ),
                }
            },
    {
        self.device_open = opened;
        if !opened {
            let mut m = String::new();
            m.append("mouse not found, is the dongle plugged in?");
            self.device_error = Some(m);
            return RateStep::Failed;
        }
        self.command_step(rate)
    }

    /// The report for `rate` was sent, or failed. On success the rate is in
    /// effect and the error cleared, and a notice is due when a listed program
    /// starting called for this rate (see [`AppState::observe`]) and
    /// notifications are on; the announcement is then spent. On failure the device is dropped, so the next
    /// attempt reopens it, and the error is recorded.
    pub fn report_sent(&mut self, rate: u32, result: Result<(), String>) -> (r: Option<Notice>)
        ensures
            final(self).config == old(self).config,
            final(self).paused == old(self).paused,
            match result {
                Ok(()) => {
                    &&& final(self).current_rate == Some(rate)
                    &&& final(self).device_error is None
                    &&& !resends(*final(self), rate)
                    &&& final(self).device_open == old(self).device_open
                    &&& !final(self).announce
                    &&& match r {
                        Some(n) => old(self).announce && old(self).config.settings.notifications
                            && notice_view(n) == ("Polling rate changed"@, rate_text(rate)),
                        None => !old(self).announce || !old(self).config.settings.notifications,
                    }
                },
                Err(e) => {
                    &&& r is None
                    &&& final(self).announce == old(self).announce
                    &&& !final(self).device_open
                    &&& error_view(final(self).device_error) == Some(e@)
                    &&& final(self).current_rate == old(self).current_rate
                },
            },
    {
        match result {
            Ok(()) => {
                let announce = self.announce;
                self.current_rate = Some(rate);
                self.device_error = None;
                self.announce = false;
                if announce && self.config.settings.notifications {
                    let mut body = String::new();
                    push_rate(&mut body, rate);
                    let mut title = String::new();
                    title.append("Polling rate changed");
                    assert(title@ =~= "Polling rate changed"@);
                    assert(body@ =~= rate_text(rate));
                    Some(Notice { title, body })
                } else {
                    None
                }
            },
            Err(e) => {
                self.device_open = false;
                self.device_error = Some(e);
                None
            },
        }
    }

    /// Pause or resume switching. Returns whether to evaluate now: on
    /// resuming; on pausing only the tray needs updating.
    pub fn toggle_pause(&mut self) -> (evaluate_now: bool)
        ensures
            final(self).paused == !old(self).paused,
            evaluate_now == !final(self).paused,
            same_watch(*old(self), *final(self)),
            final(self).config == old(self).config,
            final(self).device_open == old(self).device_open,
            final(self).device_error == old(self).device_error,
            final(self).current_rate == old(self).current_rate,
    {
        self.paused = !self.paused;
        !self.paused
    }

    /// Turn notifications on or off.
    pub fn toggle_notifications(&mut self)
        ensures
            final(self).config.settings.notifications == !old(self).config.settings.notifications,
            final(self).config.settings.active_rate == old(self).config.settings.active_rate,
            final(self).config.settings.inactive_rate == old(self).config.settings.inactive_rate,
            final(self).config.settings.poll_interval_ms == old(
                self,
            ).config.settings.poll_interval_ms,
            final(self).config.programs == old(self).config.programs,
            final(self).config.protocol == old(self).config.protocol,
            final(self).device_open == old(self).device_open,
            final(self).device_error == old(self).device_error,
            final(self).current_rate == old(self).current_rate,
            final(self).paused == old(self).paused,
            same_watch(*old(self), *final(self)),
    {
        self.config.settings.notifications = !self.config.settings.notifications;
    }

    /// Apply a rate chosen from one of the two submenus.
    pub fn choose_rate(&mut self, rate: u32, active: bool)
        ensures
            final(self).config.settings.active_rate == (if active {
                rate
            } else {
                old(self).config.settings.active_rate
            }),
            final(self).config.settings.inactive_rate == (if active {
                old(self).config.settings.inactive_rate
            } else {
                rate
            }),
            final(self).config.settings.notifications == old(self).config.settings.notifications,
            final(self).config.settings.poll_interval_ms == old(
                self,
            ).config.settings.poll_interval_ms,
            final(self).config.programs == old(self).config.programs,
            final(self).config.protocol == old(self).config.protocol,
            final(self).device_open == old(self).device_open,
            final(self).device_error == old(self).device_error,
            final(self).current_rate == old(self).current_rate,
            final(self).paused == old(self).paused,
            same_watch(*old(self), *final(self)),
    {
        if active {
            self.config.settings.active_rate = rate;
        } else {
            self.config.settings.inactive_rate = rate;
        }
    }

    /// Take a freshly loaded configuration. The device is dropped, in case the
    /// protocol changed, and the rate is applied afresh.
    pub fn apply_loaded(&mut self, cfg: Config)
        ensures
            final(self).config == cfg,
            !final(self).device_open,
            final(self).current_rate is None,
            final(self).device_error == old(self).device_error,
            final(self).paused == old(self).paused,
            same_watch(*old(self), *final(self)),
    {
        self.config = cfg;
        self.device_open = false;
        self.current_rate = None;
    }

    /// The notice after a reload: how many programs are watched, or, when a
    /// file had problems, what they were.
    pub fn reload_notice(&self, problems: &Vec<String>) -> (n: Notice)
        ensures
            notice_view(n) == (if problems@.len() == 0 {
                (
                    "Reloaded"@,
                    "Watching "@ + decimal(self.config.programs@.len()) + " program(s)"@,
                )
            } else {
                ("Config problem"@, join(problems.deep_view(), "\n"@))
            }),
    {
        if problems.len() == 0 {
            let mut body = String::new();
            body.append("Watching ");
            push_decimal(&mut body, self.config.programs.len() as u64);
            body.append(" program(s)");
            assert(body@ =~= "Watching "@ + decimal(self.config.programs@.len()) + " program(s)"@);
            let mut title = String::new();
            title.append("Reloaded");
            assert(title@ =~= "Reloaded"@);
            Notice { title, body }
        } else {
            let body = join_strings(problems, "\n");
            let mut title = String::new();
            title.append("Config problem");
            assert(title@ =~= "Config problem"@);
            Notice { title, body }
        }
    }

    /// The tray tooltip: the error if the last attempt failed, otherwise the
    /// rate in effect (or that it is starting) and whether switching is
    /// paused.
    pub fn tray_tip(&self) -> (r: String)
        ensures
            r@ == tip_text(error_view(self.device_error), self.current_rate, self.paused),
            self.device_error is None ==> r@.len() >= 8 && (r@.subrange(r@.len() - 8, r@.len() as int)
                == ", paused"@ <==> self.paused),
    {
        let mut out = String::new();
        out.append("Glorious Auto Polling Rate\n");
        match &self.device_error {
            Some(err) => {
                out.append(err.as_str());
            },
            None => {
                match self.current_rate {
                    Some(r) => push_rate(&mut out, r),
                    None => out.append("starting"),
                }
                if self.paused {
                    out.append(", paused");
                }
            },
        }
        proof {
            if self.device_error is None {
                let ghost m = match self.current_rate {
                    Some(r) => rate_text(r),
                    None => "starting"@,
                };
                if !self.paused {
                    assert(m + Seq::<char>::empty() =~= m);
                }
            }
        }
        assert(out@ =~= tip_text(error_view(self.device_error), self.current_rate, self.paused));
        proof {
            lemma_tip_shows_pause(self.current_rate, self.paused);
        }
        out
    }

    /// Whether the tray shows the inactive icon: when the inactive rate is in
    /// effect, before any rate is applied, and while paused.
    pub fn tray_inactive(&self) -> (r: bool)
        ensures
            r == (self.current_rate == Some(self.config.settings.inactive_rate)
                || self.current_rate is None || self.paused),
    {
        self.current_rate == Some(self.config.settings.inactive_rate)
            || self.current_rate.is_none() || self.paused
    }
}

/// Once a rate has been sent successfully, applying the same rate again sends
/// nothing, until something fails: a quiet desktop session sends no report
/// after the first one.
pub proof fn lemma_applied_rate_is_not_resent(s: AppState, rate: u32, other: u32)
    requires
        s.current_rate == Some(rate),
        s.device_error is None,
    ensures
        !resends(s, rate),
        other != rate ==> resends(s, other),
{
}

/// A rate goes to the device unless it is exactly the one in effect with
/// nothing failed since: while an error is recorded every rate is applied
/// again, and a rate other than the one in effect is always sent.
pub proof fn lemma_resend_after_failure_or_change(s: AppState, rate: u32)
    ensures
        s.device_error is Some ==> resends(s, rate),
        s.current_rate != Some(rate) ==> resends(s, rate),
        !resends(s, rate) <==> (s.current_rate == Some(rate) && s.device_error is None),
{
}

/// With no error recorded, the tooltip ends in `", paused"` exactly when
/// switching is paused, whatever rate is in effect.
pub proof fn lemma_tip_shows_pause(current: Option<u32>, paused: bool)
    ensures
        ({
            let t = tip_text(None, current, paused);
            &&& t.len() >= 8
            &&& (t.subrange(t.len() - 8, t.len() as int) == ", paused"@ <==> paused)
        }),
{
    reveal_strlit(", paused");
    reveal_strlit(" Hz");
    reveal_strlit("starting");
    reveal_strlit("Glorious Auto Polling Rate\n");
    let t = tip_text(None, current, paused);
    let head = "Glorious Auto Polling Rate\n"@;
    let m = match current {
        Some(r) => rate_text(r),
        None => "starting"@,
    };
    if paused {
        assert(t == head + m + ", paused"@);
        assert(t.subrange(t.len() - 8, t.len() as int) =~= ", paused"@);
    } else {
        assert(m + Seq::<char>::empty() =~= m);
        assert(t == head + m);
        assert(t.last() == m.last());
        match current {
            Some(r) => {
                assert(m.last() == 'z');
            },
            None => {
                assert(m.last() == 'g');
            },
        }
        assert(t.subrange(t.len() - 8, t.len() as int).last() == t.last());
        assert(", paused"@.last() == 'd');
    }
}

/// A program that stays open is announced once, however many scans pass:
/// once a scan has seen it running and the announcement is spent, later scans
/// that still see it announce nothing. Manual actions never announce.
pub proof fn lemma_open_program_announced_once(s: AppState, running: bool, silent: bool)
    ensures
        s.was_running && !s.announce ==> !announce_after(s, running, silent),
        silent ==> !announce_after(s, running, silent),
        !running ==> !announce_after(s, running, silent),
        !s.was_running && running && !silent ==> announce_after(s, running, silent),
{
}

/// The tooltip text.
pub open spec fn tip_text(error: Option<Seq<char>>, current: Option<u32>, paused: bool) -> Seq<
    char,
> {
    "Glorious Auto Polling Rate\n"@ + match error {
        Some(e) => e,
        None => (match current {
            Some(r) => rate_text(r),
            None => "starting"@,
        }) + (if paused {
            ", paused"@
        } else {
            Seq::empty()
        }),
    }
}

/// The notice after a settings change could not be saved.
pub fn save_failed_notice(err: &String) -> (n: Notice)
    ensures
        notice_view(n) == ("Could not save settings"@, err@),
{
    notice("Could not save settings", err.as_str())
}

/// The notice after turning Start with Windows on or off.
pub fn autostart_notice(enabled: bool, result: &Result<(), String>) -> (n: Notice)
    ensures
        notice_view(n) == (match result {
            Ok(()) => ("Start with Windows"@, if enabled {
                "on"@
            } else {
                "off"@
            }),
            Err(e) => ("Could not change autostart"@, e@),
        }),
{
    match result {
        Ok(()) => notice("Start with Windows", if enabled {
            "on"
        } else {
            "off"
        }),
        Err(e) => notice("Could not change autostart", e.as_str()),
    }
}

/// The text of the startup message about configuration problems.
pub fn config_problem_text(problems: &Vec<String>) -> (r: String)
    ensures
        r@ == join(problems.deep_view(), "\n"@)
            + "\n\nDefaults were used for whatever could not be read."@,
{
    let mut out = join_strings(problems, "\n");
    out.append("\n\nDefaults were used for whatever could not be read.");
    out
}

/// The rescan timer interval: the configured milliseconds, never below 250,
/// held to the largest count the timer takes.
pub open spec fn interval_spec(ms: u64) -> u32 {
    if ms < 250 {
        250
    } else if ms > u32::MAX {
        u32::MAX
    } else {
        ms as u32
    }
}

/// The rescan timer interval for a configured poll interval.
pub fn timer_interval(ms: u64) -> (r: u32)
    ensures
        r == interval_spec(ms),
        250 <= r,
        r as int == (if ms < 250 {
            250
        } else if ms > u32::MAX {
            u32::MAX as int
        } else {
            ms as int
        }),
{
    if ms < 250 {
        250
    } else if ms > 0xffff_ffff {
        u32::MAX
    } else {
        ms as u32
    }
}

// ---------------------------------------------------------------------------
// The tray menu
// ---------------------------------------------------------------------------
pub const CMD_PAUSE: usize = 10;
pub const CMD_RELOAD: usize = 12;
pub const CMD_OPEN_LIST: usize = 13;
pub const CMD_GITHUB: usize = 14;
pub const CMD_QUIT: usize = 15;
pub const CMD_NOTIFICATIONS: usize = 16;
pub const CMD_AUTOSTART: usize = 17;
/// Rate submenu ids are a base plus the index into the available rate list.
pub const CMD_ACTIVE_BASE: usize = 100;
pub const CMD_INACTIVE_BASE: usize = 200;
/// How many ids each rate submenu may use before it would collide with the next.
pub const RATE_SPAN: usize = 100;

/// What a menu selection asks for.
#[derive(Debug, Clone, Copy, PartialEq, Eq, Structural)]
pub enum MenuCommand {
    /// The active rate at this index of the available rates.
    ActiveRate(usize),
    /// The inactive rate at this index of the available rates.
    InactiveRate(usize),
    Pause,
    Reload,
    OpenList,
    Github,
    Quit,
    Notifications,
    Autostart,
    /// Nothing was chosen, or an id that means nothing.
    Nothing,
}

/// The meaning of a menu id. The submenus own contiguous id ranges, tested
/// before the fixed ids.
pub open spec fn command_of(cmd: usize) -> MenuCommand {
    if CMD_ACTIVE_BASE <= cmd < CMD_ACTIVE_BASE + RATE_SPAN {
        MenuCommand::ActiveRate((cmd - CMD_ACTIVE_BASE) as usize)
    } else if CMD_INACTIVE_BASE <= cmd < CMD_INACTIVE_BASE + RATE_SPAN {
        MenuCommand::InactiveRate((cmd - CMD_INACTIVE_BASE) as usize)
    } else if cmd == CMD_PAUSE {
        MenuCommand::Pause
    } else if cmd == CMD_RELOAD {
        MenuCommand::Reload
    } else if cmd == CMD_OPEN_LIST {
        MenuCommand::OpenList
    } else if cmd == CMD_GITHUB {
        MenuCommand::Github
    } else if cmd == CMD_QUIT {
        MenuCommand::Quit
    } else if cmd == CMD_NOTIFICATIONS {
        MenuCommand::Notifications
    } else if cmd == CMD_AUTOSTART {
        MenuCommand::Autostart
    } else {
        MenuCommand::Nothing
    }
}

/// Map a menu id to what it asks for.
pub fn dispatch_command(cmd: usize) -> (r: MenuCommand)
    ensures
        r == command_of(cmd),
{
    if CMD_ACTIVE_BASE <= cmd && cmd < CMD_ACTIVE_BASE + RATE_SPAN {
        MenuCommand::ActiveRate(cmd - CMD_ACTIVE_BASE)
    } else if CMD_INACTIVE_BASE <= cmd && cmd < CMD_INACTIVE_BASE + RATE_SPAN {
        MenuCommand::InactiveRate(cmd - CMD_INACTIVE_BASE)
    } else if cmd == CMD_PAUSE {
        MenuCommand::Pause
    } else if cmd == CMD_RELOAD {
        MenuCommand::Reload
    } else if cmd == CMD_OPEN_LIST {
        MenuCommand::OpenList
    } else if cmd == CMD_GITHUB {
        MenuCommand::Github
    } else if cmd == CMD_QUIT {
        MenuCommand::Quit
    } else if cmd == CMD_NOTIFICATIONS {
        MenuCommand::Notifications
    } else if cmd == CMD_AUTOSTART {
        MenuCommand::Autostart
    } else {
        MenuCommand::Nothing
    }
}

/// The rate a submenu id picks: the available rate at `cmd - base`, if
/// there is one.
pub fn dispatch_rate(config: &Config, cmd: usize, base: usize) -> (r: Option<u32>)
    requires
        base <= cmd,
    ensures
        r == (if cmd - base < menu_rates(config.protocol.commands@).len() {
            Some(menu_rates(config.protocol.commands@)[cmd - base])
        } else {
            None
        }),
{
    let index = cmd - base;
    let rates = config.available_rates();
    if index < rates.len() {
        Some(rates[index])
    } else {
        None
    }
}

/// One entry of a rate submenu.
#[derive(Debug)]
pub struct MenuItem {
    pub id: usize,
    pub text: String,
    pub checked: bool,
}

/// The entries of a rate submenu: the first [`RATE_SPAN`] rates at most,
/// each with its id `base + index`, its text, and a check mark on the current
/// choice.
pub open spec fn rate_items(items: Seq<MenuItem>, rates: Seq<u32>, current: u32, base: usize) -> bool {
    &&& items.len() == (if rates.len() < RATE_SPAN {
        rates.len()
    } else {
        RATE_SPAN as nat
    })
    &&& forall|i: int|
        0 <= i < items.len() ==> {
            &&& (#[trigger] items[i]).id == base + i
            &&& items[i].text@ == rate_text(rates[i])
            &&& items[i].checked == (rates[i] == current)
        }
}

/// A rate submenu: at most [`RATE_SPAN`] rates, each with its id
/// `base + index`, its text, and a check mark on the current choice.
pub fn rate_menu(rates: &Vec<u32>, current: u32, base: usize) -> (r: Vec<MenuItem>)
    requires
        base + RATE_SPAN <= usize::MAX,
    ensures
        rate_items(r@, rates@, current, base),
        forall|i: int| 0 <= i < r@.len() ==> (#[trigger] r@[i].checked <==> rates@[i] == current),
{
    let mut out: Vec<MenuItem> = Vec::new();
    let mut i: usize = 0;
    while i < rates.len() && i < RATE_SPAN
        invariant
            i <= rates@.len(),
            i <= RATE_SPAN,
            base + RATE_SPAN <= usize::MAX,
            out@.len() == i,
            forall|k: int|
                0 <= k < i ==> {
                    &&& (#[trigger] out@[k]).id == base + k
                    &&& out@[k].text@ == rate_text(rates@[k])
                    &&& out@[k].checked == (rates@[k] == current)
                },
        decreases RATE_SPAN - i,
    {
        let mut text = String::new();
        push_rate(&mut text, rates[i]);
        out.push(MenuItem { id: base + i, text, checked: rates[i] == current });
        i = i + 1;
    }
    proof {
        lemma_only_the_current_rate_is_checked(out@, rates@, current, base);
    }
    out
}

/// In a rate submenu an item is check marked exactly when its rate is the
/// current choice: over distinct rates at most one item is checked, and it is
/// the current rate's.
pub proof fn lemma_only_the_current_rate_is_checked(
    items: Seq<MenuItem>,
    rates: Seq<u32>,
    current: u32,
    base: usize,
)
    requires
        rate_items(items, rates, current, base),
    ensures
        forall|i: int| 0 <= i < items.len() ==> (#[trigger] items[i].checked <==> rates[i] == current),
        forall|i: int, j: int|
            0 <= i < items.len() && 0 <= j < items.len() && #[trigger] items[i].checked
                && #[trigger] items[j].checked ==> rates[i] == rates[j],
        rates.no_duplicates() ==> forall|i: int, j: int|
            0 <= i < items.len() && 0 <= j < items.len() && #[trigger] items[i].checked
                && #[trigger] items[j].checked ==> i == j,
{
}

/// The label of a rate submenu, such as `"Active rate: 4000 Hz"`.
pub fn submenu_label(label: &str, current: u32) -> (r: String)
    ensures
        r@ == label@ + ": "@ + rate_text(current),
{
    let mut out = String::new();
    out.append(label);
    out.append(": ");
    push_rate(&mut out, current);
    assert(out@ =~= label@ + ": "@ + rate_text(current));
    out
}

/// The greyed header of the menu: how many programs are watched.
pub fn menu_header(programs: usize) -> (r: String)
    ensures
        r@ == "Watching "@ + decimal(programs as nat) + " program(s)"@,
{
    let mut out = String::new();
    out.append("Watching ");
    push_decimal(&mut out, programs as u64);
    out.append(" program(s)");
    assert(out@ =~= "Watching "@ + decimal(programs as nat) + " program(s)"@);
    out
}

/// One line of the tray menu.
#[derive(Debug)]
pub enum MenuEntry {
    /// A plain item: its id, its text, whether it is check marked and
    /// whether it is greyed out.
    Item { id: usize, text: String, checked: bool, greyed: bool },
    /// A separator line.
    Separator,
    /// A submenu: its label and its items.
    Submenu { text: String, items: Vec<MenuItem> },
}

/// Whether a menu line is the plain item described.
pub open spec fn is_item(e: MenuEntry, id: usize, text: Seq<char>, checked: bool, greyed: bool) -> bool {
    e matches MenuEntry::Item { id: i, text: t, checked: c, greyed: g } && i == id && t@ == text
        && c == checked && g == greyed
}

/// Whether a menu line is the rate submenu described: labelled with the
/// current choice, such as `"Active rate: 4000 Hz"`, over the offered rates.
pub open spec fn is_rate_submenu(
    e: MenuEntry,
    label: Seq<char>,
    rates: Seq<u32>,
    current: u32,
    base: usize,
) -> bool {
    e matches MenuEntry::Submenu { text, items } && text@ == label + ": "@ + rate_text(current)
        && rate_items(items@, rates, current, base)
}

fn plain_item(id: usize, text: &str, checked: bool, greyed: bool) -> (e: MenuEntry)
    ensures
        is_item(e, id, text@, checked, greyed),
{
    let mut t = String::new();
    t.append(text);
    assert(t@ =~= text@);
    MenuEntry::Item { id, text: t, checked, greyed }
}

fn rate_submenu(label: &str, rates: &Vec<u32>, current: u32, base: usize) -> (e: MenuEntry)
    requires
        base + RATE_SPAN <= usize::MAX,
    ensures
        is_rate_submenu(e, label@, rates@, current, base),
{
    MenuEntry::Submenu { text: submenu_label(label, current), items: rate_menu(rates, current, base) }
}

/// The tray menu, top to bottom: the greyed count of watched programs; the
/// pause switch, check marked while paused; the active and inactive rate
/// pickers over the offered rates, each marking its current choice; editing
/// and reloading the program list; the notifications switch and the Start
/// with Windows switch, each check marked while on; help; and quitting.
/// Separators part the groups. `autostart` is whether Windows starts the app.
pub fn main_menu(state: &AppState, autostart: bool) -> (r: Vec<MenuEntry>)
    ensures
        ({
            let rates = menu_rates(state.config.protocol.commands@);
            let settings = state.config.settings;
            &&& r@.len() == 15
            &&& is_item(
                r@[0],
                0,
                "Watching "@ + decimal(state.config.programs@.len()) + " program(s)"@,
                false,
                true,
            )
            &&& r@[1] is Separator
            &&& is_item(r@[2], CMD_PAUSE, "Pause auto switching"@, state.paused, false)
            &&& r@[3] is Separator
            &&& is_rate_submenu(r@[4], "Active rate"@, rates, settings.active_rate, CMD_ACTIVE_BASE)
            &&& is_rate_submenu(
                r@[5],
                "Inactive rate"@,
                rates,
                settings.inactive_rate,
                CMD_INACTIVE_BASE,
            )
            &&& r@[6] is Separator
            &&& is_item(r@[7], CMD_OPEN_LIST, "Edit program list"@, false, false)
            &&& is_item(r@[8], CMD_RELOAD, "Reload program list"@, false, false)
            &&& r@[9] is Separator
            &&& is_item(
                r@[10],
                CMD_NOTIFICATIONS,
                "Show notifications"@,
                settings.notifications,
                false,
            )
            &&& is_item(r@[11], CMD_AUTOSTART, "Start with Windows"@, autostart, false)
            &&& r@[12] is Separator
            &&& is_item(r@[13], CMD_GITHUB, "About and help"@, false, false)
            &&& is_item(r@[14], CMD_QUIT, "Quit"@, false, false)
        }),
{
    let rates = state.config.available_rates();
    let settings = &state.config.settings;
    let mut out: Vec<MenuEntry> = Vec::new();
    let header = menu_header(state.config.programs.len());
    out.push(MenuEntry::Item { id: 0, text: header, checked: false, greyed: true });
    out.push(MenuEntry::Separator);
    out.push(plain_item(CMD_PAUSE, "Pause auto switching", state.paused, false));
    out.push(MenuEntry::Separator);
    out.push(rate_submenu("Active rate", &rates, settings.active_rate, CMD_ACTIVE_BASE));
    out.push(rate_submenu("Inactive rate", &rates, settings.inactive_rate, CMD_INACTIVE_BASE));
    out.push(MenuEntry::Separator);
    out.push(plain_item(CMD_OPEN_LIST, "Edit program list", false, false));
    out.push(plain_item(CMD_RELOAD, "Reload program list", false, false));
    out.push(MenuEntry::Separator);
    out.push(plain_item(CMD_NOTIFICATIONS, "Show notifications", settings.notifications, false));
    out.push(plain_item(CMD_AUTOSTART, "Start with Windows", autostart, false));
    out.push(MenuEntry::Separator);
    out.push(plain_item(CMD_GITHUB, "About and help", false, false));
    out.push(plain_item(CMD_QUIT, "Quit", false, false));
    out
}

} // verus!
