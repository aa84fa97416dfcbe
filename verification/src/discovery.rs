//! Finding the backlight devices under a directory.
//!
//! A directory entry is a device if the control file in it is a regular
//! file. [`DeviceIter`] decides that entry by entry, and leaves the reading to
//! its caller: each call of [`DeviceIter::next`] takes the [`Event`] that
//! answers the [`Step`] before it, and says what to do next. [`transition`]
//! is the whole of its behaviour, [`yielded`] is what a caller gets who
//! answers every step, and [`lemma_scan_yields_devices`] shows that this is
//! [`devices_in`] the listing.

use crate::device::{bl_power, Device, DeviceView, BL_POWER};
use crate::error::Error;
use crate::location::joined;
use vstd::prelude::*;

verus! {

/// What the caller of a scan reports to it.
#[derive(Debug)]
pub enum Event<E> {
    /// Nothing: the caller wants the next device.
    Resume,
    /// The listing was advanced. `None` is its end; an error is an entry
    /// that could not be listed; otherwise this is the location of the entry.
    Listed(Option<Result<String, E>>),
    /// The answer to a probe: whether there is a regular file at the
    /// location that was asked about.
    Probed(bool),
}

/// What an [`Event`] says to the scan. The cause for which an entry could not
/// be listed is not part of it: nothing depends on it.
pub enum Signal {
    /// The caller wants the next device.
    Resume,
    /// The listing has ended.
    End,
    /// The listing gave an entry that could not be listed.
    Unreadable,
    /// The listing gave the entry at this location.
    Entry(Seq<char>),
    /// Whether the location that was asked about is a regular file.
    Probed(bool),
}

impl<E> View for Event<E> {
    type V = Signal;

    open spec fn view(&self) -> Signal {
        match *self {
            Event::Resume => Signal::Resume,
            Event::Listed(None) => Signal::End,
            Event::Listed(Some(Err(_))) => Signal::Unreadable,
            Event::Listed(Some(Ok(path))) => Signal::Entry(path@),
            Event::Probed(is_file) => Signal::Probed(is_file),
        }
    }
}

/// What the scan asks of its caller.
#[derive(Debug)]
pub enum Step {
    /// Advance the listing by one entry, and report it with
    /// [`Event::Listed`].
    Advance,
    /// Find out whether there is a regular file at this location, and report
    /// it with [`Event::Probed`].
    Probe(String),
    /// Take this device: it is the next one of the sequence.
    Yield(Device),
    /// Stop: the sequence has ended.
    Finish,
}

/// What a [`Step`] holds, as mathematical values.
pub enum StepView {
    /// Advance the listing by one entry.
    Advance,
    /// Find out whether there is a regular file at this location.
    Probe(Seq<char>),
    /// The next device of the sequence.
    Yield(DeviceView),
    /// The sequence has ended.
    Finish,
}

impl View for Step {
    type V = StepView;

    open spec fn view(&self) -> StepView {
        match *self {
            Step::Advance => StepView::Advance,
            Step::Probe(location) => StepView::Probe(location@),
            Step::Yield(device) => StepView::Yield(device@),
            Step::Finish => StepView::Finish,
        }
    }
}

/// Where a scan stands.
pub enum Scan {
    /// There is no listing, or it has ended: the sequence is exhausted, for
    /// good.
    Closed,
    /// The listing is open, and no entry is under consideration.
    Listing,
    /// The entry at this location is under consideration: the scan has asked
    /// whether its control file is a regular file.
    Probing(Seq<char>),
}

/// The next state of a scan and what it asks for, given its state and what
/// its caller reports.
///
/// A closed scan stays closed. An open one takes the answer to what it asked
/// last: it asks for the next entry after one that could not be listed or
/// that is no device, closes at the end of the listing, probes the control
/// file of an entry, and yields the entry as a device if that is a regular
/// file. A report that answers nothing it asked changes nothing, and is
/// answered with the same request again.
pub open spec fn transition(scan: Scan, signal: Signal) -> (Scan, StepView) {
    match scan {
        Scan::Closed => (Scan::Closed, StepView::Finish),
        Scan::Listing => match signal {
            Signal::End => (Scan::Closed, StepView::Finish),
            Signal::Entry(path) => (
                Scan::Probing(path),
                StepView::Probe(joined(path, BL_POWER@)),
            ),
            _ => (Scan::Listing, StepView::Advance),
        },
        Scan::Probing(path) => match signal {
            Signal::Probed(true) => (
                Scan::Listing,
                StepView::Yield(DeviceView::at(path, BL_POWER@)),
            ),
            Signal::Probed(false) => (Scan::Listing, StepView::Advance),
            _ => (Scan::Probing(path), StepView::Probe(joined(path, BL_POWER@))),
        },
    }
}

/// A scan of one directory for backlight devices: a sequence of devices
/// that is made one by one, forward only, and once.
///
/// `R` is the handle of the open directory listing. The scan keeps it while
/// there is more to list, and hands it out for advancing with
/// [`DeviceIter::readdir`].
#[derive(Debug)]
pub struct DeviceIter<R> {
    readdir: Option<R>,
    candidate: Option<String>,
}

impl<R> View for DeviceIter<R> {
    type V = Scan;

    closed spec fn view(&self) -> Scan {
        match (self.readdir, self.candidate) {
            (None, _) => Scan::Closed,
            (Some(_), None) => Scan::Listing,
            (Some(_), Some(path)) => Scan::Probing(path@),
        }
    }
}

impl<R> DeviceIter<R> {
    /// The handle of the directory listing, which a scan has exactly as
    /// long as it is not closed.
    pub closed spec fn handle(&self) -> Option<R> {
        self.readdir
    }

    /// Starts a scan from what came of opening the directory. Where that
    /// failed, the scan is closed from the start and its sequence is empty;
    /// the failure is not reported.
    pub fn new<E>(opened: Result<R, E>) -> (devices: Self)
        ensures
            devices@ == if opened is Ok {
                Scan::Listing
            } else {
                Scan::Closed
            },
            devices.handle() == match opened {
                Ok(listing) => Some(listing),
                Err(_) => None,
            },
    {
        match opened {
            Ok(listing) => DeviceIter { readdir: Some(listing), candidate: None },
            Err(_) => DeviceIter { readdir: None, candidate: None },
        }
    }

    /// Takes what the caller reports and says what to do next, by
    /// [`transition`].
    ///
    /// To get the next device, report [`Event::Resume`], then do what each
    /// step asks and report what came of it, until the step is
    /// [`Step::Yield`] or [`Step::Finish`]. The scan lets go of the listing
    /// when it closes, and not before.
    pub fn next<E>(&mut self, event: Event<E>) -> (step: Step)
        ensures
            (final(self)@, step@) == transition(old(self)@, event@),
            final(self).handle() == if final(self)@ is Closed {
                None
            } else {
                old(self).handle()
            },
    {
        if self.readdir.is_none() {
            return Step::Finish;
        }
        match self.candidate.take() {
            None => match event {
                Event::Listed(None) => {
                    self.readdir = None;
                    Step::Finish
                },
                Event::Listed(Some(Ok(path))) => {
                    let location = bl_power(path.as_str());
                    self.candidate = Some(path);
                    Step::Probe(location)
                },
                _ => Step::Advance,
            },
            Some(path) => match event {
                Event::Probed(true) => Step::Yield(Device::new(path.as_str())),
                Event::Probed(false) => Step::Advance,
                _ => {
                    let location = bl_power(path.as_str());
                    self.candidate = Some(path);
                    Step::Probe(location)
                },
            },
        }
    }

    /// The handle of the directory listing, for advancing it; `None` if the
    /// scan is closed. The state of the scan stays as it is.
    pub fn readdir(&mut self) -> (listing: Option<&mut R>)
        ensures
            final(self)@ == old(self)@,
            match listing {
                Some(handle) => old(self).handle() == Some(*handle) && final(self).handle()
                    == Some(*final(handle)),
                None => old(self).handle() is None && final(self).handle() is None,
            },
    {
        match &mut self.readdir {
            Some(handle) => Some(handle),
            None => None,
        }
    }

    /// Tells whether the scan is closed: its sequence has ended.
    pub fn is_closed(&self) -> (closed: bool)
        ensures
            closed == (self@ is Closed),
    {
        self.readdir.is_none()
    }
}

/// Starts a scan of a directory from what came of opening it, and fails at
/// once where that failed.
///
/// This is [`DeviceIter::new`] for a caller who wants to be told that the
/// directory could not be opened: the cause comes back as [`Error::Io`].
pub fn iterate_devices<R, E>(opened: Result<R, E>) -> (devices: Result<DeviceIter<R>, Error<E>>)
    ensures
        match opened {
            Ok(listing) => devices matches Ok(scan) && scan@ == Scan::Listing && scan.handle()
                == Some(listing),
            Err(cause) => devices matches Err(error) && error == Error::Io(cause),
        },
{
    match opened {
        Ok(listing) => Ok(DeviceIter::new(Ok::<R, E>(listing))),
        Err(cause) => Err(Error::Io(cause)),
    }
}

/// What the listing says of one entry: its location, or that it could not
/// be listed (`None`).
pub open spec fn listed(entry: Option<Seq<char>>) -> Signal {
    match entry {
        Some(path) => Signal::Entry(path),
        None => Signal::Unreadable,
    }
}

/// How many reports a scan can take, at most, before it closes or its caller
/// advances the listing.
pub open spec fn pending(scan: Scan, signal: Signal) -> nat {
    match (scan, signal) {
        (Scan::Closed, _) => 0,
        (Scan::Listing, Signal::End) => 0,
        (Scan::Listing, Signal::Entry(_)) => 3,
        (Scan::Listing, _) => 1,
        (Scan::Probing(_), Signal::Probed(_)) => 2,
        (Scan::Probing(_), _) => 3,
    }
}

/// The devices that a scan yields from the state `scan` on, to a caller who
/// reports `signal` and from then on does what each step asks: it advances
/// through `listing`, whose entries are locations or could not be listed,
/// and answers a probe by whether the location is among the regular files
/// `files`. The caller resumes after each device and stops when told to.
pub open spec fn yielded(
    scan: Scan,
    signal: Signal,
    listing: Seq<Option<Seq<char>>>,
    files: Set<Seq<char>>,
) -> Seq<DeviceView>
    decreases listing.len(), pending(scan, signal),
{
    let (next, step) = transition(scan, signal);
    match step {
        StepView::Finish => Seq::empty(),
        StepView::Yield(device) => seq![device] + yielded(next, Signal::Resume, listing, files),
        StepView::Probe(location) => yielded(
            next,
            Signal::Probed(files.contains(location)),
            listing,
            files,
        ),
        StepView::Advance => if listing.len() == 0 {
            yielded(next, Signal::End, listing, files)
        } else {
            yielded(next, listed(listing.first()), listing.drop_first(), files)
        },
    }
}

/// Whether the entry is a device: it could be listed, and the control file
/// in it is a regular file.
pub open spec fn is_device(entry: Option<Seq<char>>, files: Set<Seq<char>>) -> bool {
    entry matches Some(path) && files.contains(joined(path, BL_POWER@))
}

/// The devices among the entries of a listing, in the order of the listing.
pub open spec fn devices_in(listing: Seq<Option<Seq<char>>>, files: Set<Seq<char>>) -> Seq<
    DeviceView,
>
    decreases listing.len(),
{
    if listing.len() == 0 {
        Seq::empty()
    } else if is_device(listing.first(), files) {
        seq![DeviceView::at(listing.first()->0, BL_POWER@)] + devices_in(
            listing.drop_first(),
            files,
        )
    } else {
        devices_in(listing.drop_first(), files)
    }
}

/// Law: the scan of an open directory yields the devices among its entries,
/// each once, in the order of the listing, and nothing else. An entry that
/// could not be listed is passed over, like one without a control file.
pub proof fn lemma_scan_yields_devices(listing: Seq<Option<Seq<char>>>, files: Set<Seq<char>>)
    ensures
        yielded(Scan::Listing, Signal::Resume, listing, files) == devices_in(listing, files),
    decreases listing.len(),
{
    reveal_with_fuel(yielded, 4);
    if listing.len() > 0 {
        lemma_scan_yields_devices(listing.drop_first(), files);
    }
}

/// Law: a scan that is closed yields nothing, whatever the directory holds
/// and whatever is reported to it. So does the scan of a directory that
/// could not be opened.
pub proof fn lemma_closed_yields_nothing(
    signal: Signal,
    listing: Seq<Option<Seq<char>>>,
    files: Set<Seq<char>>,
)
    ensures
        yielded(Scan::Closed, signal, listing, files) == Seq::<DeviceView>::empty(),
        transition(Scan::Closed, signal) == (Scan::Closed, StepView::Finish),
{
}

/// Law: the sequence ends once. A scan asks its caller to stop only as it
/// closes or when it is closed.
pub proof fn lemma_finish_is_final(scan: Scan, signal: Signal)
    ensures
        transition(scan, signal).1 is Finish ==> transition(scan, signal).0 is Closed,
        transition(scan, signal).0 is Closed ==> transition(scan, signal).1 is Finish,
{
}

/// Law: the devices among the entries are the entries that are devices, in
/// their order: none is added, left out, repeated or moved. So there are no
/// more of them than entries.
pub proof fn lemma_devices_are_filtered(listing: Seq<Option<Seq<char>>>, files: Set<Seq<char>>)
    ensures
        devices_in(listing, files) == listing.filter(
            |entry: Option<Seq<char>>| is_device(entry, files),
        ).map_values(|entry: Option<Seq<char>>| DeviceView::at(entry->0, BL_POWER@)),
        devices_in(listing, files).len() <= listing.len(),
    decreases listing.len(),
{
    let qualifies = |entry: Option<Seq<char>>| is_device(entry, files);
    let device = |entry: Option<Seq<char>>| DeviceView::at(entry->0, BL_POWER@);
    listing.lemma_filter_len(qualifies);
    if listing.len() == 0 {
        reveal_with_fuel(Seq::filter, 1);
        assert(listing.filter(qualifies).map_values(device) == Seq::<DeviceView>::empty());
    } else {
        let head = seq![listing.first()];
        let rest = listing.drop_first();
        lemma_devices_are_filtered(rest, files);
        assert(listing == head + rest);
        Seq::filter_distributes_over_add(head, rest, qualifies);
        assert(head.filter(qualifies) == if qualifies(listing.first()) {
            head
        } else {
            Seq::empty()
        }) by {
            reveal_with_fuel(Seq::filter, 2);
            assert(head.drop_last().len() == 0);
        }
        assert(listing.filter(qualifies).map_values(device) == head.filter(qualifies).map_values(
            device,
        ) + rest.filter(qualifies).map_values(device));
    }
}

/// Taking one entry out of a listing takes its device out of the devices, if
/// it is one, and changes nothing else.
proof fn lemma_without_entry(listing: Seq<Option<Seq<char>>>, files: Set<Seq<char>>, at: int)
    requires
        0 <= at < listing.len(),
    ensures
        devices_in(listing, files).to_multiset() == if is_device(listing[at], files) {
            devices_in(listing.remove(at), files).to_multiset().insert(
                DeviceView::at(listing[at]->0, BL_POWER@),
            )
        } else {
            devices_in(listing.remove(at), files).to_multiset()
        },
    decreases at,
{
    broadcast use vstd::multiset::group_multiset_axioms;

    let rest = listing.drop_first();
    let head = DeviceView::at(listing.first()->0, BL_POWER@);
    if at == 0 {
        assert(listing.remove(0) == rest);
    } else {
        let shorter = listing.remove(at);
        assert(shorter.first() == listing.first());
        assert(shorter.drop_first() == rest.remove(at - 1));
        assert(rest[at - 1] == listing[at]);
        lemma_without_entry(rest, files, at - 1);
        if is_device(listing.first(), files) {
            let kept = devices_in(rest.remove(at - 1), files);
            assert(seq![head] + kept == kept.insert(0, head));
            vstd::seq_lib::to_multiset_insert(kept, 0, head);
        }
    }
    if is_device(listing.first(), files) {
        let found = devices_in(rest, files);
        assert(seq![head] + found == found.insert(0, head));
        vstd::seq_lib::to_multiset_insert(found, 0, head);
    }
}

/// Law: which devices are found does not depend on the order of the
/// listing. Two listings that hold the same entries, each as often, hold the
/// same devices, each as often, and so equally many.
pub proof fn lemma_order_is_irrelevant(
    first: Seq<Option<Seq<char>>>,
    second: Seq<Option<Seq<char>>>,
    files: Set<Seq<char>>,
)
    requires
        first.to_multiset() == second.to_multiset(),
    ensures
        devices_in(first, files).to_multiset() == devices_in(second, files).to_multiset(),
        devices_in(first, files).len() == devices_in(second, files).len(),
    decreases first.len(),
{
    broadcast use vstd::multiset::group_multiset_axioms;

    vstd::seq_lib::to_multiset_len(first);
    vstd::seq_lib::to_multiset_len(second);
    if first.len() > 0 {
        let entry = first[0];
        vstd::seq_lib::to_multiset_contains(first, entry);
        vstd::seq_lib::to_multiset_contains(second, entry);
        assert(first.contains(entry));
        let at = choose|at: int| 0 <= at < second.len() && second[at] == entry;
        vstd::seq_lib::to_multiset_remove(first, 0);
        vstd::seq_lib::to_multiset_remove(second, at);
        lemma_order_is_irrelevant(first.remove(0), second.remove(at), files);
        lemma_without_entry(first, files, 0);
        lemma_without_entry(second, files, at);
    }
    vstd::seq_lib::to_multiset_len(devices_in(first, files));
    vstd::seq_lib::to_multiset_len(devices_in(second, files));
}

} // verus!
