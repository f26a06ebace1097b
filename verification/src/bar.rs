//! The state of one progress bar apart from where it draws: its style, its
//! progress, its finish behavior and its tab width; the lines it draws; and
//! the builders that configure a bar before it is shown.
use vstd::prelude::*;

use crate::draw::views;
use crate::format::TimeSpan;
use crate::state::{expand_tabs, ProgressFinish, ProgressState, Status, TabExpandedString, DEFAULT_TAB_WIDTH};
use crate::style::{ext_views, singles, ProgressStyle, DEFAULT_TICKS};
use crate::template::template_parts;
use crate::text::{chars_of, split_lines, string_of, text_lines};

verus! {

/// A progress bar's state apart from its draw target.
pub struct BarState {
    pub on_finish: ProgressFinish,
    pub style: ProgressStyle,
    pub state: ProgressState,
    pub tab_width: usize,
}

/// The lines a bar draws for a terminal `width` columns wide (none without a
/// width, or once it is finished and hidden).
pub open spec fn bar_lines(
    style: ProgressStyle,
    st: ProgressState,
    width: Option<u16>,
    colors: bool,
    ext: Seq<(Seq<char>, Seq<char>)>,
) -> Seq<Seq<char>> {
    match width {
        Some(w) => if st.status != Status::DoneHidden {
            style.render(st, w as nat, colors, ext)
        } else {
            Seq::empty()
        },
        None => Seq::empty(),
    }
}

/// Whether the bar can be rendered when it has to be.
pub open spec fn lines_ready(
    style: ProgressStyle,
    st: ProgressState,
    width: Option<u16>,
    ext: Seq<(Seq<char>, Seq<char>)>,
) -> bool {
    width is Some && st.status != Status::DoneHidden ==> style.renderable(st, ext)
}

/// The lines `println` prints above a bar: the message's lines, or one empty
/// line for a message without any.
pub open spec fn printed_lines(msg: Seq<char>) -> Seq<Seq<char>> {
    if text_lines(msg).len() == 0 {
        seq![Seq::empty()]
    } else {
        text_lines(msg)
    }
}

impl BarState {
    /// A bar of length `len` with the default bar style, at position 0,
    /// cleared when it finishes, with the default tab width.
    pub fn new(len: Option<u64>) -> (b: BarState)
        ensures
            b.style.wf(),
            b.style.parts() == template_parts("{wide_bar} {pos}/{len}"@),
            b.style.ticks() == singles(DEFAULT_TICKS@),
            b.style.chars() == singles("\u{2588}\u{2591}"@),
            b.style.cluster_width() == 1,
            b.style.finish() is AndClear,
            b.on_finish is AndClear,
            b.state.pos == 0,
            b.state.len == len,
            b.state.tick == 0,
            b.state.status == Status::InProgress,
            b.tab_width == DEFAULT_TAB_WIDTH,
            b.state.message.text() == Seq::<char>::empty(),
            b.state.prefix.text() == Seq::<char>::empty(),
            b.state.message.shown() == Seq::<char>::empty(),
            b.state.prefix.shown() == Seq::<char>::empty(),
    {
        BarState {
            on_finish: ProgressFinish::default_finish(),
            style: ProgressStyle::default_bar(),
            state: ProgressState::new(len),
            tab_width: DEFAULT_TAB_WIDTH,
        }
    }

    /// Finishes the bar as `finish` says (see
    /// `ProgressState::finish_using_style`); the bar is then drawn, forced.
    pub fn finish_using_style(&mut self, finish: ProgressFinish)
        ensures
            final(self).state.status == (if finish is AndClear {
                Status::DoneHidden
            } else {
                Status::DoneVisible
            }),
            final(self).state.pos == (match (finish, old(self).state.len) {
                (ProgressFinish::AndLeave, Some(l)) => l,
                (ProgressFinish::WithMessage(_), Some(l)) => l,
                (ProgressFinish::AndClear, Some(l)) => l,
                _ => old(self).state.pos,
            }),
            finish matches ProgressFinish::WithMessage(m) ==> final(self).state.message.text() == m@
                && final(self).state.message.shown() == expand_tabs(m@, old(self).tab_width as nat),
            finish matches ProgressFinish::AbandonWithMessage(m) ==> final(self).state.message.text() == m@
                && final(self).state.message.shown() == expand_tabs(m@, old(self).tab_width as nat),
            !(finish is WithMessage || finish is AbandonWithMessage) ==> final(self).state.message == old(
                self,
            ).state.message,
            final(self).state.prefix == old(self).state.prefix,
            final(self).state.tick == old(self).state.tick,
            final(self).state.len == old(self).state.len,
            final(self).state.elapsed == old(self).state.elapsed,
            final(self).state.eta == old(self).state.eta,
            final(self).state.duration == old(self).state.duration,
            final(self).style == old(self).style,
            final(self).tab_width == old(self).tab_width,
            final(self).on_finish == old(self).on_finish,
    {
        let tw = self.tab_width;
        self.state.finish_using_style(finish, tw);
    }

    /// Sets the length.
    pub fn set_length(&mut self, len: u64)
        ensures
            *final(self) == (BarState { state: ProgressState { len: Some(len), ..old(self).state }, ..*old(self) }),
    {
        self.state.set_len(len);
    }

    /// Grows the length, where there is one, saturating.
    pub fn inc_length(&mut self, delta: u64)
        ensures
            *final(self) == (BarState {
                state: ProgressState {
                    len: match old(self).state.len {
                        Some(l) => Some(if l + delta > u64::MAX { u64::MAX } else { (l + delta) as u64 }),
                        None => None,
                    },
                    ..old(self).state
                },
                ..*old(self)
            }),
    {
        self.state.inc_length(delta);
    }

    /// Counts one more tick, saturating.
    pub fn tick(&mut self)
        ensures
            *final(self) == (BarState {
                state: ProgressState {
                    tick: if old(self).state.tick == u64::MAX { u64::MAX } else { (old(self).state.tick + 1) as u64 },
                    ..old(self).state
                },
                ..*old(self)
            }),
    {
        self.state.tick();
    }

    /// Sets the tab width and expands the message and the prefix again.
    pub fn set_tab_width(&mut self, tab_width: usize)
        ensures
            final(self).tab_width == tab_width,
            final(self).state.message.shown() == expand_tabs(old(self).state.message.text(), tab_width as nat),
            final(self).state.prefix.shown() == expand_tabs(old(self).state.prefix.text(), tab_width as nat),
            final(self).state.message.text() == old(self).state.message.text(),
            final(self).state.prefix.text() == old(self).state.prefix.text(),
            final(self).state.elapsed == old(self).state.elapsed,
            final(self).state.eta == old(self).state.eta,
            final(self).state.duration == old(self).state.duration,
            final(self).state.pos == old(self).state.pos,
            final(self).state.len == old(self).state.len,
            final(self).state.status == old(self).state.status,
            final(self).state.tick == old(self).state.tick,
            final(self).style == old(self).style,
            final(self).on_finish == old(self).on_finish,
    {
        self.tab_width = tab_width;
        self.state.message.set_tab_width(tab_width);
        self.state.prefix.set_tab_width(tab_width);
    }

    /// Sets the style.
    pub fn set_style(&mut self, style: ProgressStyle)
        ensures
            final(self).style == style,
            final(self).state == old(self).state,
            final(self).tab_width == old(self).tab_width,
            final(self).on_finish == old(self).on_finish,
    {
        self.style = style;
    }

    /// Sets the message, expanding its tabs.
    pub fn set_message(&mut self, msg: &str)
        ensures
            final(self).state.message.text() == msg@,
            final(self).state.message.shown() == expand_tabs(msg@, old(self).tab_width as nat),
            final(self).state == (ProgressState { message: final(self).state.message, ..old(self).state }),
            final(self).state.prefix == old(self).state.prefix,
            final(self).state.pos == old(self).state.pos,
            final(self).state.len == old(self).state.len,
            final(self).state.status == old(self).state.status,
            final(self).style == old(self).style,
            final(self).state.tick == old(self).state.tick,
            final(self).on_finish == old(self).on_finish,
            final(self).tab_width == old(self).tab_width,
    {
        self.state.message = TabExpandedString::new(msg, self.tab_width);
    }

    /// Sets the prefix, expanding its tabs.
    pub fn set_prefix(&mut self, prefix: &str)
        ensures
            final(self).state.prefix.text() == prefix@,
            final(self).state.prefix.shown() == expand_tabs(prefix@, old(self).tab_width as nat),
            final(self).state == (ProgressState { prefix: final(self).state.prefix, ..old(self).state }),
            final(self).state.message == old(self).state.message,
            final(self).state.pos == old(self).state.pos,
            final(self).state.len == old(self).state.len,
            final(self).state.status == old(self).state.status,
            final(self).style == old(self).style,
            final(self).state.tick == old(self).state.tick,
            final(self).on_finish == old(self).on_finish,
            final(self).tab_width == old(self).tab_width,
    {
        self.state.prefix = TabExpandedString::new(prefix, self.tab_width);
    }

    /// Whether a draw is forced: when asked, and always once finished.
    pub fn draw_forced(&self, force_draw: bool) -> (f: bool)
        ensures
            f == (force_draw || self.state.finished()),
    {
        force_draw || self.state.is_finished()
    }

    /// The lines the bar draws on a terminal `width` columns wide, with
    /// `ext` holding the values of keys computed outside the style.
    pub fn draw_lines(&self, width: Option<u16>, colors: bool, ext: &Vec<(String, String)>) -> (r: Vec<String>)
        requires
            lines_ready(self.style, self.state, width, ext_views(ext@)),
        ensures
            views(r@) == bar_lines(self.style, self.state, width, colors, ext_views(ext@)),
    {
        match width {
            Some(w) => {
                if self.state.status != Status::DoneHidden {
                    self.style.format_state(&self.state, w as usize, colors, ext)
                } else {
                    let r: Vec<String> = Vec::new();
                    assert(views(r@) =~= Seq::<Seq<char>>::empty());
                    r
                }
            },
            None => {
                let r: Vec<String> = Vec::new();
                assert(views(r@) =~= Seq::<Seq<char>>::empty());
                r
            },
        }
    }

    /// The lines drawn when a message is printed above the bar: the
    /// message's lines (one empty line for a message without any), then the
    /// bar's own lines; and how many of them belong to the message.
    pub fn println_lines(&self, msg: &str, width: Option<u16>, colors: bool, ext: &Vec<(String, String)>) -> (r: (
        Vec<String>,
        usize,
    ))
        requires
            lines_ready(self.style, self.state, width, ext_views(ext@)),
        ensures
            views(r.0@) == printed_lines(msg@) + bar_lines(self.style, self.state, width, colors, ext_views(ext@)),
            r.1 == printed_lines(msg@).len(),
    {
        let mut lines = split_lines(msg);
        if lines.len() == 0 {
            lines.push(String::new());
            assert(views(lines@) =~= printed_lines(msg@));
        } else {
            assert(views(lines@) =~= printed_lines(msg@));
        }
        let count = lines.len();
        let mut bar = self.draw_lines(width, colors, ext);
        let ghost a = lines@;
        let ghost b = bar@;
        lines.append(&mut bar);
        assert(views(lines@) =~= views(a) + views(b));
        (lines, count)
    }
}

/// A progress bar's configuration, applied in a fixed order when the bar
/// is built: the tab width first (it decides how the prefix and the
/// message are expanded), then the style, the prefix, the message, the
/// position, the elapsed time and the finish behavior.
#[derive(Clone)]
pub struct ProgressBarBuilder {
    pub len: Option<u64>,
    pub style: Option<ProgressStyle>,
    pub message: Option<String>,
    pub prefix: Option<String>,
    pub position: Option<u64>,
    pub elapsed: Option<TimeSpan>,
    pub tab_width: Option<usize>,
    pub on_finish: Option<ProgressFinish>,
    pub steady_tick: Option<TimeSpan>,
}

/// A bar built from a configuration, the time it is to appear to have run
/// already, and the interval of its steady tick.
pub struct BuiltBar {
    pub bar: BarState,
    pub elapsed: Option<TimeSpan>,
    pub steady_tick: Option<TimeSpan>,
}

/// What building a configuration gives.
pub open spec fn built(
    b: BuiltBar,
    len: Option<u64>,
    style: Option<ProgressStyle>,
    message: Option<String>,
    prefix: Option<String>,
    position: Option<u64>,
    elapsed: Option<TimeSpan>,
    tab_width: Option<usize>,
    on_finish: Option<ProgressFinish>,
    steady_tick: Option<TimeSpan>,
) -> bool {
    let tw: nat = match tab_width {
        Some(t) => t as nat,
        None => DEFAULT_TAB_WIDTH as nat,
    };
    &&& b.bar.tab_width == tw
    &&& b.bar.state.len == len
    &&& b.bar.state.tick == 0
    &&& b.bar.state.status == Status::InProgress
    &&& b.bar.state.pos == (match position {
        Some(p) => p,
        None => 0,
    })
    &&& b.bar.style.wf()
    &&& (match style {
        Some(s) => b.bar.style == s,
        None => {
            &&& b.bar.style.parts() == template_parts("{wide_bar} {pos}/{len}"@)
            &&& b.bar.style.ticks() == singles(DEFAULT_TICKS@)
            &&& b.bar.style.chars() == singles("\u{2588}\u{2591}"@)
            &&& b.bar.style.cluster_width() == 1
            &&& b.bar.style.finish() is AndClear
        },
    })
    &&& b.bar.state.prefix.text() == (match prefix {
        Some(p) => p@,
        None => Seq::empty(),
    })
    &&& b.bar.state.message.text() == (match message {
        Some(m) => m@,
        None => Seq::empty(),
    })
    &&& b.bar.state.prefix.shown() == expand_tabs(
        match prefix {
            Some(p) => p@,
            None => Seq::empty(),
        },
        tw,
    )
    &&& b.bar.state.message.shown() == expand_tabs(
        match message {
            Some(m) => m@,
            None => Seq::empty(),
        },
        tw,
    )
    &&& (match on_finish {
        Some(f) => b.bar.on_finish == f,
        None => b.bar.on_finish is AndClear,
    })
    &&& b.elapsed == elapsed
    &&& b.steady_tick == steady_tick
}

/// Builds a bar from a configuration, in the order `ProgressBarBuilder`
/// describes.
fn configure(
    len: Option<u64>,
    style: Option<ProgressStyle>,
    message: Option<String>,
    prefix: Option<String>,
    position: Option<u64>,
    elapsed: Option<TimeSpan>,
    tab_width: Option<usize>,
    on_finish: Option<ProgressFinish>,
    steady_tick: Option<TimeSpan>,
) -> (b: BuiltBar)
    requires
        style matches Some(s) ==> s.wf(),
    ensures
        built(b, len, style, message, prefix, position, elapsed, tab_width, on_finish, steady_tick),
{
    proof {
        reveal_strlit("");
    }
    let mut bar = BarState::new(len);
    assert(expand_tabs(Seq::empty(), DEFAULT_TAB_WIDTH as nat) =~= Seq::<char>::empty());
    match tab_width {
        Some(tw) => bar.set_tab_width(tw),
        None => {},
    }
    match style {
        Some(s) => bar.set_style(s),
        None => {},
    }
    match prefix {
        Some(p) => bar.set_prefix(p.as_str()),
        None => {},
    }
    match message {
        Some(m) => bar.set_message(m.as_str()),
        None => {},
    }
    match position {
        Some(p) => bar.state.set_pos(p),
        None => {},
    }
    match on_finish {
        Some(f) => bar.on_finish = f,
        None => {},
    }
    BuiltBar { bar, elapsed, steady_tick }
}

impl ProgressBarBuilder {
    fn base() -> (b: ProgressBarBuilder)
        ensures
            b.len is None,
            b.style is None,
            b.message is None,
            b.prefix is None,
            b.position is None,
            b.elapsed is None,
            b.tab_width is None,
            b.on_finish is None,
            b.steady_tick is None,
    {
        ProgressBarBuilder {
            len: None,
            style: None,
            message: None,
            prefix: None,
            position: None,
            elapsed: None,
            tab_width: None,
            on_finish: None,
            steady_tick: None,
        }
    }

    /// A configuration for a bar of length `len`, everything else default.
    pub fn new(len: u64) -> (b: ProgressBarBuilder)
        ensures
            b.len == Some(len),
            b.style is None && b.message is None && b.prefix is None && b.position is None,
            b.elapsed is None && b.tab_width is None && b.on_finish is None && b.steady_tick is None,
    {
        let mut b = Self::base();
        b.len = Some(len);
        b
    }

    /// A configuration for a bar without a length.
    pub fn no_length() -> (b: ProgressBarBuilder)
        ensures
            b.len is None,
            b.style is None && b.message is None && b.prefix is None && b.position is None,
            b.elapsed is None && b.tab_width is None && b.on_finish is None && b.steady_tick is None,
    {
        Self::base()
    }

    /// A configuration for a spinner: no length, the default spinner style.
    pub fn new_spinner() -> (b: ProgressBarBuilder)
        ensures
            b.len is None,
            b.style matches Some(s) && s.wf() && s.parts() == template_parts("{spinner} {msg}"@),
            b.message is None && b.prefix is None && b.position is None,
            b.elapsed is None && b.tab_width is None && b.on_finish is None && b.steady_tick is None,
    {
        let mut b = Self::base();
        b.style = Some(ProgressStyle::default_spinner());
        b
    }

    /// Sets the style.
    pub fn with_style(self, style: ProgressStyle) -> (r: ProgressBarBuilder)
        ensures
            r == (ProgressBarBuilder { style: Some(style), ..self }),
    {
        ProgressBarBuilder { style: Some(style), ..self }
    }

    /// Sets the tab width.
    pub fn with_tab_width(self, tab_width: usize) -> (r: ProgressBarBuilder)
        ensures
            r == (ProgressBarBuilder { tab_width: Some(tab_width), ..self }),
    {
        ProgressBarBuilder { tab_width: Some(tab_width), ..self }
    }

    /// Sets the prefix.
    pub fn with_prefix(self, prefix: &str) -> (r: ProgressBarBuilder)
        ensures
            r == (ProgressBarBuilder { prefix: r.prefix, ..self }),
            r.prefix matches Some(p) && p@ == prefix@,
    {
        ProgressBarBuilder { prefix: Some(string_of(&chars_of(prefix))), ..self }
    }

    /// Sets the message.
    pub fn with_message(self, message: &str) -> (r: ProgressBarBuilder)
        ensures
            r == (ProgressBarBuilder { message: r.message, ..self }),
            r.message matches Some(m) && m@ == message@,
    {
        ProgressBarBuilder { message: Some(string_of(&chars_of(message))), ..self }
    }

    /// Sets the initial position.
    pub fn with_position(self, pos: u64) -> (r: ProgressBarBuilder)
        ensures
            r == (ProgressBarBuilder { position: Some(pos), ..self }),
    {
        ProgressBarBuilder { position: Some(pos), ..self }
    }

    /// Sets the time the bar is to appear to have run already.
    pub fn with_elapsed(self, elapsed: TimeSpan) -> (r: ProgressBarBuilder)
        ensures
            r == (ProgressBarBuilder { elapsed: Some(elapsed), ..self }),
    {
        ProgressBarBuilder { elapsed: Some(elapsed), ..self }
    }

    /// Sets what happens when the bar finishes.
    pub fn with_finish(self, finish: ProgressFinish) -> (r: ProgressBarBuilder)
        ensures
            r == (ProgressBarBuilder { on_finish: Some(finish), ..self }),
    {
        ProgressBarBuilder { on_finish: Some(finish), ..self }
    }

    /// Sets the interval of the steady tick started once the bar is registered.
    pub fn with_steady_tick(self, interval: TimeSpan) -> (r: ProgressBarBuilder)
        ensures
            r == (ProgressBarBuilder { steady_tick: Some(interval), ..self }),
    {
        ProgressBarBuilder { steady_tick: Some(interval), ..self }
    }

    /// Builds the bar, as `built` says.
    pub fn build_unregistered(self) -> (b: BuiltBar)
        requires
            self.style matches Some(s) ==> s.wf(),
        ensures
            built(
                b,
                self.len,
                self.style,
                self.message,
                self.prefix,
                self.position,
                self.elapsed,
                self.tab_width,
                self.on_finish,
                self.steady_tick,
            ),
    {
        configure(
            self.len,
            self.style,
            self.message,
            self.prefix,
            self.position,
            self.elapsed,
            self.tab_width,
            self.on_finish,
            self.steady_tick,
        )
    }
}

/// A bar's configuration held until the bar joins a multi progress; it
/// never draws on its own.
#[derive(Clone)]
pub struct MultiBar {
    pub len: Option<u64>,
    pub style: Option<ProgressStyle>,
    pub message: Option<String>,
    pub prefix: Option<String>,
    pub position: Option<u64>,
    pub elapsed: Option<TimeSpan>,
    pub tab_width: Option<usize>,
    pub on_finish: Option<ProgressFinish>,
    pub steady_tick: Option<TimeSpan>,
}

impl MultiBar {
    /// A configuration for a bar of length `len`.
    pub fn new(len: u64) -> (b: MultiBar)
        ensures
            b.len == Some(len),
            b.style is None && b.message is None && b.prefix is None && b.position is None,
            b.elapsed is None && b.tab_width is None && b.on_finish is None && b.steady_tick is None,
    {
        let mut b = Self::base();
        b.len = Some(len);
        b
    }

    fn base() -> (b: MultiBar)
        ensures
            b.len is None,
            b.style is None,
            b.message is None,
            b.prefix is None,
            b.position is None,
            b.elapsed is None,
            b.tab_width is None,
            b.on_finish is None,
            b.steady_tick is None,
    {
        MultiBar {
            len: None,
            style: None,
            message: None,
            prefix: None,
            position: None,
            elapsed: None,
            tab_width: None,
            on_finish: None,
            steady_tick: None,
        }
    }

    /// A configuration for a bar without a length.
    pub fn no_length() -> (b: MultiBar)
        ensures
            b.len is None,
            b.style is None && b.message is None && b.prefix is None && b.position is None,
            b.elapsed is None && b.tab_width is None && b.on_finish is None && b.steady_tick is None,
    {
        Self::base()
    }

    /// A configuration for a spinner: no length, the default spinner style.
    pub fn new_spinner() -> (b: MultiBar)
        ensures
            b.len is None,
            b.style matches Some(s) && s.wf() && s.parts() == template_parts("{spinner} {msg}"@),
            b.message is None && b.prefix is None && b.position is None,
            b.elapsed is None && b.tab_width is None && b.on_finish is None && b.steady_tick is None,
    {
        let mut b = Self::base();
        b.style = Some(ProgressStyle::default_spinner());
        b
    }

    /// Sets the style.
    pub fn with_style(self, style: ProgressStyle) -> (r: MultiBar)
        ensures
            r == (MultiBar { style: Some(style), ..self }),
    {
        MultiBar { style: Some(style), ..self }
    }

    /// Sets the tab width.
    pub fn with_tab_width(self, tab_width: usize) -> (r: MultiBar)
        ensures
            r == (MultiBar { tab_width: Some(tab_width), ..self }),
    {
        MultiBar { tab_width: Some(tab_width), ..self }
    }

    /// Sets the prefix.
    pub fn with_prefix(self, prefix: &str) -> (r: MultiBar)
        ensures
            r == (MultiBar { prefix: r.prefix, ..self }),
            r.prefix matches Some(p) && p@ == prefix@,
    {
        MultiBar { prefix: Some(string_of(&chars_of(prefix))), ..self }
    }

    /// Sets the message.
    pub fn with_message(self, message: &str) -> (r: MultiBar)
        ensures
            r == (MultiBar { message: r.message, ..self }),
            r.message matches Some(m) && m@ == message@,
    {
        MultiBar { message: Some(string_of(&chars_of(message))), ..self }
    }

    /// Sets the initial position.
    pub fn with_position(self, pos: u64) -> (r: MultiBar)
        ensures
            r == (MultiBar { position: Some(pos), ..self }),
    {
        MultiBar { position: Some(pos), ..self }
    }

    /// Sets the time the bar is to appear to have run already.
    pub fn with_elapsed(self, elapsed: TimeSpan) -> (r: MultiBar)
        ensures
            r == (MultiBar { elapsed: Some(elapsed), ..self }),
    {
        MultiBar { elapsed: Some(elapsed), ..self }
    }

    /// Sets what happens when the bar finishes.
    pub fn with_finish(self, finish: ProgressFinish) -> (r: MultiBar)
        ensures
            r == (MultiBar { on_finish: Some(finish), ..self }),
    {
        MultiBar { on_finish: Some(finish), ..self }
    }

    /// Sets the interval of the steady tick started once the bar is registered.
    pub fn with_steady_tick(self, interval: TimeSpan) -> (r: MultiBar)
        ensures
            r == (MultiBar { steady_tick: Some(interval), ..self }),
    {
        MultiBar { steady_tick: Some(interval), ..self }
    }

    /// Builds the bar, as `built` says; the caller then points it at the
    /// multi progress and starts its steady tick.
    pub fn materialize(self) -> (b: BuiltBar)
        requires
            self.style matches Some(s) ==> s.wf(),
        ensures
            built(
                b,
                self.len,
                self.style,
                self.message,
                self.prefix,
                self.position,
                self.elapsed,
                self.tab_width,
                self.on_finish,
                self.steady_tick,
            ),
    {
        configure(
            self.len,
            self.style,
            self.message,
            self.prefix,
            self.position,
            self.elapsed,
            self.tab_width,
            self.on_finish,
            self.steady_tick,
        )
    }
}

} // verus!
