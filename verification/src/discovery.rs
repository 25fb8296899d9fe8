//! Discovery: candidate files are tried in the order in which they were
//! found, the first that decodes wins, and the failures of the others are
//! folded into one error.

use vstd::prelude::*;
use crate::error::{Error, ErrorView};
use crate::recovery::{session_of, TopLevel};
use crate::tab::{extract_tabs, extracted, views, Tab, TabView};
use crate::text::{decimal, to_decimal};
use crate::util::{
    decompress_lz4, frame_payload, located, readable_and_unwanted, scanned, DirEntry, Profile,
    Wanted, lemma_nothing_wanted_nothing_found,
};

verus! {

/// What decoding makes of the bytes of one recovery file: the open tabs, or
/// the failure of the first stage that fails. The framing is stripped and
/// the payload inflated, the payload is read as a session document, and the
/// document's tabs are extracted.
pub open spec fn decoded(file: Seq<u8>) -> Result<Seq<TabView>, ErrorView> {
    match frame_payload(file) {
        Err(cause) => Err(ErrorView::DecompressionFailure(cause)),
        Ok(payload) => match session_of(payload) {
            Err(cause) => Err(ErrorView::MalformedSession(cause)),
            Ok(document) => match extracted(document) {
                Err(cause) => Err(ErrorView::MalformedSession(cause)),
                Ok(tabs) => Ok(tabs),
            },
        },
    }
}

/// The mathematical value of a result of discovery.
pub open spec fn result_view(result: Result<Vec<Tab>, Error>) -> Result<Seq<TabView>, ErrorView> {
    match result {
        Ok(tabs) => Ok(views(tabs@)),
        Err(e) => Err(e@),
    }
}

/// Decodes the bytes of one recovery file.
pub fn decode(file: &[u8]) -> (tabs: Result<Vec<Tab>, Error>)
    ensures
        result_view(tabs) == decoded(file@),
{
    let payload = match decompress_lz4(file) {
        Ok(payload) => payload,
        Err(e) => { return Err(e); },
    };
    let document = match TopLevel::from_slice(payload.as_slice()) {
        Ok(document) => document,
        Err(e) => { return Err(e); },
    };
    extract_tabs(document)
}

/// One item of the sequence of candidate files, with what came of reading
/// it.
#[derive(Debug)]
pub enum Candidate {
    /// The scan of the configuration root failed at this point; the payload
    /// is the text of the I/O error.
    Lost(String),
    /// An entry of a `sessionstore-backups` listing could not be read; the
    /// payload is the text of the I/O error.
    Unlisted(String),
    /// The file was found and could not be read; the payload is the text of
    /// the I/O error.
    Unreadable(String),
    /// The bytes of the file.
    File(Vec<u8>),
}

/// The mathematical value of a [`Candidate`].
pub enum CandidateView {
    Lost(Seq<char>),
    Unlisted(Seq<char>),
    Unreadable(Seq<char>),
    File(Seq<u8>),
}

impl View for Candidate {
    type V = CandidateView;

    open spec fn view(&self) -> CandidateView {
        match self {
            Candidate::Lost(cause) => CandidateView::Lost(cause@),
            Candidate::Unlisted(cause) => CandidateView::Unlisted(cause@),
            Candidate::Unreadable(cause) => CandidateView::Unreadable(cause@),
            Candidate::File(bytes) => CandidateView::File(bytes@),
        }
    }
}

/// The values of `candidates`, in their order.
pub open spec fn candidate_views(candidates: Seq<Candidate>) -> Seq<CandidateView> {
    candidates.map_values(|c: Candidate| c@)
}

/// What one candidate does to discovery.
pub enum Attempt {
    /// Discovery ends here, with this result.
    Ends(Result<Seq<TabView>, ErrorView>),
    /// The candidate failed: the failure is recorded, and discovery goes on
    /// with the next candidate.
    Fails(ErrorView),
}

/// What `candidate` does to discovery. A failed scan of the root ends it
/// with the I/O error. A file that decodes ends it with the file's tabs.
/// All else fails alone, and is recorded in its place: an entry of a
/// backups listing that cannot be read, and a file that cannot be read or
/// decoded.
pub open spec fn attempt(candidate: CandidateView) -> Attempt {
    match candidate {
        CandidateView::Lost(cause) => Attempt::Ends(Err(ErrorView::Io(cause))),
        CandidateView::Unlisted(cause) => Attempt::Fails(ErrorView::Io(cause)),
        CandidateView::Unreadable(cause) => Attempt::Fails(ErrorView::Io(cause)),
        CandidateView::File(bytes) => match decoded(bytes) {
            Ok(tabs) => Attempt::Ends(Ok(tabs)),
            Err(e) => Attempt::Fails(e),
        },
    }
}

/// One failure in the text of a composed error: its position in discovery
/// order in round brackets, a space, the failure's message, a space.
pub open spec fn tagged(position: nat, failure: ErrorView) -> Seq<char> {
    "("@ + decimal(position) + ") "@ + failure.message() + " "@
}

/// The text of a composed error: each failure tagged with its position,
/// in discovery order.
pub open spec fn composed(failures: Seq<ErrorView>) -> Seq<char>
    decreases failures.len(),
{
    if failures.len() == 0 {
        Seq::empty()
    } else {
        composed(failures.drop_last()) + tagged((failures.len() - 1) as nat, failures.last())
    }
}

/// The error that discovery ends with when every candidate failed: with no
/// failure at all there was no candidate; a single failure stands as it is;
/// two or more are composed.
pub open spec fn verdict(failures: Seq<ErrorView>) -> ErrorView {
    if failures.len() == 0 {
        ErrorView::NoCandidatesFound
    } else if failures.len() == 1 {
        failures[0]
    } else {
        ErrorView::MultipleFailures(composed(failures))
    }
}

/// The result of discovery on `candidates` when `failures` have been
/// recorded before them.
pub open spec fn outcome_after(failures: Seq<ErrorView>, candidates: Seq<CandidateView>) -> Result<
    Seq<TabView>,
    ErrorView,
>
    decreases candidates.len(),
{
    if candidates.len() == 0 {
        Err(verdict(failures))
    } else {
        match attempt(candidates[0]) {
            Attempt::Ends(result) => result,
            Attempt::Fails(e) => outcome_after(failures.push(e), candidates.drop_first()),
        }
    }
}

/// The result of discovery on `candidates`.
pub open spec fn outcome(candidates: Seq<CandidateView>) -> Result<Seq<TabView>, ErrorView> {
    outcome_after(Seq::empty(), candidates)
}

/// The values of `failures`, in their order.
pub open spec fn failure_views(failures: Seq<Error>) -> Seq<ErrorView> {
    failures.map_values(|e: Error| e@)
}

/// The state of a discovery under way: the failures recorded so far.
#[derive(Debug)]
pub struct Discovery {
    pub failures: Vec<Error>,
}

impl View for Discovery {
    type V = Seq<ErrorView>;

    open spec fn view(&self) -> Seq<ErrorView> {
        failure_views(self.failures@)
    }
}

impl Discovery {
    /// A discovery that has seen no candidate yet.
    pub fn new() -> (discovery: Discovery)
        ensures
            discovery@ == Seq::<ErrorView>::empty(),
    {
        let discovery = Discovery { failures: Vec::new() };
        assert(discovery@ =~= Seq::<ErrorView>::empty());
        discovery
    }

    /// Takes the next candidate. `Some` is the result that discovery ends
    /// with; on `None` the candidate's failure has been recorded and the
    /// next candidate is wanted.
    pub fn offer(&mut self, candidate: Candidate) -> (end: Option<Result<Vec<Tab>, Error>>)
        ensures
            match attempt(candidate@) {
                Attempt::Ends(result) => {
                    &&& end matches Some(r)
                    &&& result_view(r) == result
                    &&& final(self)@ == old(self)@
                },
                Attempt::Fails(e) => end is None && final(self)@ == old(self)@.push(e),
            },
    {
        let ghost before = self@;
        let failure = match candidate {
            Candidate::Lost(cause) => { return Some(Err(Error::Io(cause))); },
            Candidate::Unlisted(cause) => Error::Io(cause),
            Candidate::Unreadable(cause) => Error::Io(cause),
            Candidate::File(bytes) => match decode(bytes.as_slice()) {
                Ok(tabs) => { return Some(Ok(tabs)); },
                Err(e) => e,
            },
        };
        self.failures.push(failure);
        assert(self@ =~= before.push(failure@));
        None
    }

    /// The error that discovery ends with when no candidate is left.
    pub fn finish(self) -> (e: Error)
        ensures
            e@ == verdict(self@),
    {
        let ghost all = self@;
        let mut failures = self.failures;
        let count: usize = failures.len();
        if count == 0 {
            return Error::NoCandidatesFound;
        }
        if count == 1 {
            return failures.swap_remove(0);
        }
        let mut text = String::new();
        let mut i: usize = 0;
        assert(all.take(0) =~= Seq::<ErrorView>::empty());
        while i < count
            invariant
                i <= count,
                count == failures.len(),
                all == failure_views(failures@),
                text@ == composed(all.take(i as int)),
            decreases count - i,
        {
            let ghost so_far = all.take(i as int);
            let ghost next = all.take(i + 1);
            assert(next.drop_last() =~= so_far);
            assert(next.last() == failures[i as int]@);
            let position = to_decimal(i);
            let message = failures[i].message();
            text.append("(");
            text.append(position.as_str());
            text.append(") ");
            text.append(message.as_str());
            text.append(" ");
            assert(text@ =~= composed(so_far) + tagged(i as nat, failures[i as int]@));
            i = i + 1;
        }
        assert(all.take(count as int) =~= all);
        Error::MultipleFailures(text)
    }
}

/// Discovery over candidates that are all at hand: the tabs of the first
/// candidate that decodes, whatever stands behind it; else the error folded
/// from the failures.
pub fn list_tabs(candidates: Vec<Candidate>) -> (tabs: Result<Vec<Tab>, Error>)
    ensures
        result_view(tabs) == outcome(candidate_views(candidates@)),
{
    let ghost all = candidate_views(candidates@);
    let ghost given = candidates@;
    let mut discovery = Discovery::new();
    assert(all.skip(0) =~= all);
    for candidate in it: candidates.into_iter()
        invariant
            it.seq() == given,
            all == candidate_views(given),
            outcome(all) == outcome_after(discovery@, all.skip(it.index() as int)),
    {
        let ghost rest = all.skip(it.index() as int);
        assert(rest[0] == candidate@);
        assert(rest.drop_first() =~= all.skip(it.index() + 1));
        match discovery.offer(candidate) {
            Some(result) => {
                return result;
            },
            None => {},
        }
    }
    Err(discovery.finish())
}

/// The failures of `candidates`, in their order, where each of them fails.
pub open spec fn failures_of(candidates: Seq<CandidateView>) -> Seq<ErrorView> {
    candidates.map_values(|c: CandidateView| attempt(c)->Fails_0)
}

/// Discovery that has recorded `failures` and meets `candidates`, of which
/// the one at `first` is the first that does not merely fail, ends with what
/// that candidate ends with.
proof fn lemma_ends_at_first_end(
    failures: Seq<ErrorView>,
    candidates: Seq<CandidateView>,
    first: int,
)
    requires
        0 <= first < candidates.len(),
        forall|i: int| 0 <= i < first ==> attempt(#[trigger] candidates[i]) is Fails,
        attempt(candidates[first]) is Ends,
    ensures
        outcome_after(failures, candidates) == attempt(candidates[first])->Ends_0,
    decreases first,
{
    if first > 0 {
        let rest = candidates.drop_first();
        assert(attempt(candidates[0]) is Fails);
        assert forall|i: int| 0 <= i < first - 1 implies attempt(#[trigger] rest[i]) is Fails by {
            assert(rest[i] == candidates[i + 1]);
        }
        lemma_ends_at_first_end(failures.push(attempt(candidates[0])->Fails_0), rest, first - 1);
    }
}

/// Discovery that has recorded `failures` and meets only candidates that
/// fail ends with the verdict on all the failures, old and new.
proof fn lemma_fails_when_all_fail(failures: Seq<ErrorView>, candidates: Seq<CandidateView>)
    requires
        forall|i: int| 0 <= i < candidates.len() ==> attempt(#[trigger] candidates[i]) is Fails,
    ensures
        outcome_after(failures, candidates) == Err::<Seq<TabView>, ErrorView>(
            verdict(failures + failures_of(candidates)),
        ),
    decreases candidates.len(),
{
    if candidates.len() == 0 {
        assert(failures + failures_of(candidates) =~= failures);
    } else {
        let rest = candidates.drop_first();
        let e = attempt(candidates[0])->Fails_0;
        assert(attempt(candidates[0]) is Fails);
        assert forall|i: int| 0 <= i < rest.len() implies attempt(#[trigger] rest[i]) is Fails by {
            assert(rest[i] == candidates[i + 1]);
        }
        lemma_fails_when_all_fail(failures.push(e), rest);
        assert(failures.push(e) + failures_of(rest) =~= failures + failures_of(candidates));
    }
}

/// The first candidate that decodes wins: where every candidate before
/// `winner` fails and the file at `winner` decodes, discovery returns that
/// file's tabs and no error, whatever the earlier failures were and whatever
/// stands behind it.
pub proof fn lemma_first_success_wins(candidates: Seq<CandidateView>, winner: int)
    requires
        0 <= winner < candidates.len(),
        forall|i: int| 0 <= i < winner ==> attempt(#[trigger] candidates[i]) is Fails,
        candidates[winner] matches CandidateView::File(bytes) && decoded(bytes) is Ok,
    ensures
        outcome(candidates) == decoded(candidates[winner]->File_0),
{
    lemma_ends_at_first_end(Seq::empty(), candidates, winner);
}

/// A failed scan of the root ends discovery: where every candidate before
/// `at` fails and the item at `at` is the scan's error, discovery returns
/// that I/O error alone.
pub proof fn lemma_lost_search_ends_discovery(candidates: Seq<CandidateView>, at: int)
    requires
        0 <= at < candidates.len(),
        forall|i: int| 0 <= i < at ==> attempt(#[trigger] candidates[i]) is Fails,
        candidates[at] is Lost,
    ensures
        outcome(candidates) == Err::<Seq<TabView>, ErrorView>(
            ErrorView::Io(candidates[at]->Lost_0),
        ),
{
    lemma_ends_at_first_end(Seq::empty(), candidates, at);
}

/// Where every candidate fails, discovery returns the verdict on their
/// failures: `NoCandidatesFound` without candidates, the failure itself of
/// a single candidate, and with two or more a `MultipleFailures` whose text
/// lists them all in discovery order.
pub proof fn lemma_all_fail(candidates: Seq<CandidateView>)
    requires
        forall|i: int| 0 <= i < candidates.len() ==> attempt(#[trigger] candidates[i]) is Fails,
    ensures
        outcome(candidates) == Err::<Seq<TabView>, ErrorView>(verdict(failures_of(candidates))),
        candidates.len() == 0 ==> outcome(candidates) == Err::<Seq<TabView>, ErrorView>(
            ErrorView::NoCandidatesFound,
        ),
        candidates.len() == 1 ==> outcome(candidates) == Err::<Seq<TabView>, ErrorView>(
            attempt(candidates[0])->Fails_0,
        ),
        candidates.len() >= 2 ==> outcome(candidates) == Err::<Seq<TabView>, ErrorView>(
            ErrorView::MultipleFailures(composed(failures_of(candidates))),
        ),
{
    lemma_fails_when_all_fail(Seq::empty(), candidates);
    assert(Seq::<ErrorView>::empty() + failures_of(candidates) =~= failures_of(candidates));
}

/// An entry of a backups listing that could not be read is one failure
/// among the others: where every candidate fails, its I/O error stands in
/// the failures at its own position, and the result follows from the
/// count of them all.
pub proof fn lemma_unlisted_entry_is_recorded(candidates: Seq<CandidateView>, at: int)
    requires
        forall|i: int| 0 <= i < candidates.len() ==> attempt(#[trigger] candidates[i]) is Fails,
        0 <= at < candidates.len(),
        candidates[at] is Unlisted,
    ensures
        failures_of(candidates).len() == candidates.len(),
        failures_of(candidates)[at] == ErrorView::Io(candidates[at]->Unlisted_0),
        outcome(candidates) == Err::<Seq<TabView>, ErrorView>(verdict(failures_of(candidates))),
{
    lemma_all_fail(candidates);
}

/// The text that composes two failures: the first tagged `(0)`, the second
/// tagged `(1)`.
pub proof fn lemma_two_failures_composed(first: ErrorView, second: ErrorView)
    ensures
        composed(seq![first, second]) == "(0) "@ + first.message() + " (1) "@ + second.message()
            + " "@,
{
    let both = seq![first, second];
    let one = both.drop_last();
    assert(one =~= seq![first]);
    assert(one.drop_last() =~= Seq::<ErrorView>::empty());
    assert(composed(one.drop_last()) =~= Seq::<char>::empty());
    assert(composed(one) =~= tagged(0, first));
    assert(composed(both) =~= tagged(0, first) + tagged(1, second));
    reveal_strlit("(");
    reveal_strlit(") ");
    reveal_strlit(" ");
    reveal_strlit("(0) ");
    reveal_strlit(" (1) ");
    assert(decimal(0) =~= seq!['0']);
    assert(decimal(1) =~= seq!['1']);
    assert(tagged(0, first) =~= "(0) "@ + first.message() + " "@);
    assert(tagged(1, second) =~= "(1) "@ + second.message() + " "@) by {
        reveal_strlit("(1) ");
    }
    assert("(0) "@ + first.message() + " "@ + ("(1) "@ + second.message() + " "@) =~= "(0) "@
        + first.message() + " (1) "@ + second.message() + " "@) by {
        reveal_strlit("(1) ");
    }
}

/// A configuration root in which every entry can be read and none is a
/// profile directory leads to `NoCandidatesFound`: the scan of the root
/// yields nothing, so there is no profile to follow and no file to try.
/// `profiles` stands for what was seen behind each item of the scan, and
/// `candidates` for what came of each file that was located.
pub proof fn lemma_no_profile_dirs_no_candidates<P>(
    root: Seq<Result<DirEntry<P>, String>>,
    profiles: Seq<Profile<P>>,
    candidates: Seq<CandidateView>,
)
    requires
        forall|i: int|
            0 <= i < root.len() ==> readable_and_unwanted(#[trigger] root[i], Wanted::ProfileDirs),
        profiles.len() == scanned(root, Wanted::ProfileDirs).len(),
        candidates.len() == located(profiles).len(),
    ensures
        scanned(root, Wanted::ProfileDirs).len() == 0,
        outcome(candidates) == Err::<Seq<TabView>, ErrorView>(ErrorView::NoCandidatesFound),
{
    lemma_nothing_wanted_nothing_found(root, Wanted::ProfileDirs);
}

} // verus!
