//! Progress reporting: the kind of progress a task shows, and the state
//! machine of a progress bar that reports percentages.

use vstd::prelude::*;

verus! {

/// How progress is shown: a spinner, or a bar with a known length.
#[derive(Debug, Clone, Copy, PartialEq, PartialOrd, Ord, Eq, Hash, Default, Structural)]
pub enum UpdaterType {
    #[default]
    Spinner,
    Progress,
}

/// What a progress bar reports after each event: its title, and for a bar
/// of the `Progress` kind its position and length (the percentage is
/// `pos / len * 100`).
#[derive(Debug, Clone, PartialEq, Eq)]
pub struct ProgressReport {
    pub title: String,
    pub progress: Option<(usize, usize)>,
}

/// The state of a progress bar.
#[derive(Debug)]
pub struct WebProgressBar {
    status: String,
    pos: usize,
    len: usize,
    type_: UpdaterType,
}

/// Abstract state of a progress bar.
pub struct WebProgressBarView {
    pub status: Seq<char>,
    pub pos: usize,
    pub len: usize,
    pub type_: UpdaterType,
}

impl View for WebProgressBar {
    type V = WebProgressBarView;

    closed spec fn view(&self) -> WebProgressBarView {
        WebProgressBarView { status: self.status@, pos: self.pos, len: self.len, type_: self.type_ }
    }
}

/// The report of a progress bar in the state `v`.
pub open spec fn report_of(v: WebProgressBarView, r: ProgressReport) -> bool {
    &&& r.title@ == v.status
    &&& r.progress == (if v.type_ == UpdaterType::Progress { Some((v.pos, v.len)) } else { None })
}

impl WebProgressBar {
    /// An empty spinner.
    pub fn new() -> (r: Self)
        ensures
            r@.status == Seq::<char>::empty(),
            r@.pos == 0 && r@.len == 0 && r@.type_ == UpdaterType::Spinner,
    {
        WebProgressBar { status: String::new(), pos: 0, len: 0, type_: UpdaterType::Spinner }
    }

    fn report(&self) -> (r: ProgressReport)
        ensures
            report_of(self@, r),
    {
        ProgressReport {
            title: self.status.clone(),
            progress: match self.type_ {
                UpdaterType::Progress => Some((self.pos, self.len)),
                UpdaterType::Spinner => None,
            },
        }
    }

    /// Starts over at position 0, with the new length when one is given.
    pub fn init_cb(&mut self, len: Option<usize>) -> (r: ProgressReport)
        ensures
            final(self)@.pos == 0,
            final(self)@.len == (match len {
                Some(l) => l,
                None => old(self)@.len,
            }),
            final(self)@.status == old(self)@.status && final(self)@.type_ == old(self)@.type_,
            report_of(final(self)@, r),
    {
        self.pos = 0;
        match len {
            Some(l) => {
                self.len = l;
            },
            None => {},
        }
        self.report()
    }

    /// Advances by `n`.
    pub fn inc_cb(&mut self, n: usize) -> (r: ProgressReport)
        requires
            old(self)@.pos + n <= usize::MAX,
        ensures
            final(self)@.pos == old(self)@.pos + n,
            final(self)@.len == old(self)@.len && final(self)@.status == old(self)@.status
                && final(self)@.type_ == old(self)@.type_,
            report_of(final(self)@, r),
    {
        self.pos = self.pos + n;
        self.report()
    }

    /// Clears the title and goes back to position 0.
    pub fn finish_cb(&mut self) -> (r: ProgressReport)
        ensures
            final(self)@.status == Seq::<char>::empty() && final(self)@.pos == 0,
            final(self)@.len == old(self)@.len && final(self)@.type_ == old(self)@.type_,
            report_of(final(self)@, r),
    {
        self.status = String::new();
        self.pos = 0;
        self.report()
    }

    /// Clears the title and goes back to position 0.
    pub fn reset_cb(&mut self) -> (r: ProgressReport)
        ensures
            final(self)@.status == Seq::<char>::empty() && final(self)@.pos == 0,
            final(self)@.len == old(self)@.len && final(self)@.type_ == old(self)@.type_,
            report_of(final(self)@, r),
    {
        self.status = String::new();
        self.pos = 0;
        self.report()
    }

    /// Moves to position `pos`.
    pub fn set_pos_cb(&mut self, pos: usize) -> (r: ProgressReport)
        ensures
            final(self)@.pos == pos,
            final(self)@.len == old(self)@.len && final(self)@.status == old(self)@.status
                && final(self)@.type_ == old(self)@.type_,
            report_of(final(self)@, r),
    {
        self.pos = pos;
        self.report()
    }

    /// Sets the title.
    pub fn on_title_cb(&mut self, title: String) -> (r: ProgressReport)
        ensures
            final(self)@.status == title@,
            final(self)@.pos == old(self)@.pos && final(self)@.len == old(self)@.len
                && final(self)@.type_ == old(self)@.type_,
            report_of(final(self)@, r),
    {
        self.status = title;
        self.report()
    }

    /// Sets the kind of progress.
    pub fn on_type_cb(&mut self, type_: UpdaterType) -> (r: ProgressReport)
        ensures
            final(self)@.type_ == type_,
            final(self)@.pos == old(self)@.pos && final(self)@.len == old(self)@.len
                && final(self)@.status == old(self)@.status,
            report_of(final(self)@, r),
    {
        self.type_ = type_;
        self.report()
    }
}

impl Default for WebProgressBar {
    fn default() -> (r: Self)
        ensures
            r@.status == Seq::<char>::empty(),
            r@.pos == 0 && r@.len == 0 && r@.type_ == UpdaterType::Spinner,
    {
        Self::new()
    }
}

} // verus!
