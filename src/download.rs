//! The download stage: where a file link is stored, and the steps of one
//! download, taken by the caller one at a time.
//!
//! A download first checks whether its file is already present; only if not
//! does it fetch the body into a temporary file, which is then renamed into
//! place, so an interrupted download never leaves a partial file under the
//! final name.

use vstd::prelude::*;
use crate::error::AppError;
use crate::text::{
    after_last, after_last_spec, concat, find, first_occurrence, last_index_of,
    lemma_first_occurrence_from, lemma_last_index_of, occurs_at, substring,
};

verus! {

/// The last path segment of `url`: what follows its last `/`.
pub open spec fn last_segment(url: Seq<char>) -> Seq<char> {
    after_last_spec(url, '/')
}

/// The file name under which the file that `url` names is stored: its last
/// path segment, cut after the first `.csv` so that anything the catalog
/// appends to the name is dropped.
pub open spec fn file_name_spec(url: Seq<char>) -> Seq<char> {
    let seg = last_segment(url);
    let k = first_occurrence(seg, ".csv"@);
    if k >= 0 {
        seg.subrange(0, k + ".csv"@.len())
    } else {
        seg
    }
}

/// The name of the temporary file a download is written to before it is
/// renamed into place.
pub open spec fn temp_name_spec(file_name: Seq<char>) -> Seq<char> {
    file_name + ".part"@
}

/// The file name under which the file that `url` names is stored.
pub fn destination_filename(url: &str) -> (r: String)
    ensures
        r@ == file_name_spec(url@),
{
    let seg = after_last(url, '/');
    let seg_len = seg.as_str().unicode_len();
    let ext = ".csv";
    proof {
        lemma_first_occurrence_from(seg@, ext@, 0);
    }
    match find(seg.as_str(), ext) {
        Some(k) => {
            assert(k + ext@.len() <= seg_len);
            substring(seg.as_str(), 0, k + ext.unicode_len())
        },
        None => seg,
    }
}

/// For a link `dir/base.csv` followed by any suffix the catalog appends
/// (such as a query), where the name and the suffix hold no `/` and `.csv`
/// first occurs right after `base`, the stored file name is `base.csv`.
pub proof fn lemma_file_name_drops_suffix(dir: Seq<char>, base: Seq<char>, suffix: Seq<char>)
    requires
        forall|k: int| 0 <= k < base.len() ==> base[k] != '/',
        forall|k: int| 0 <= k < ".csv"@.len() ==> ".csv"@[k] != '/',
        forall|k: int| 0 <= k < suffix.len() ==> suffix[k] != '/',
        forall|k: int|
            0 <= k < base.len() ==> !occurs_at(#[trigger] (base + ".csv"@ + suffix), ".csv"@, k),
    ensures
        file_name_spec(dir + "/"@ + base + ".csv"@ + suffix) == base + ".csv"@,
{
    let ext = ".csv"@;
    let seg = base + ext + suffix;
    let url = dir + "/"@ + seg;
    let d = dir.len() as int;
    assert(url =~= (dir + "/"@) + seg);
    proof_slash_len();
    assert(url[d] == '/');
    assert forall|k: int| d < k < url.len() implies url[k] != '/' by {
        assert(url[k] == seg[k - d - 1]);
        if k - d - 1 < base.len() {
            assert(seg[k - d - 1] == base[k - d - 1]);
        } else if k - d - 1 < base.len() + ext.len() {
            assert(seg[k - d - 1] == ext[k - d - 1 - base.len()]);
        } else {
            assert(seg[k - d - 1] == suffix[k - d - 1 - base.len() - ext.len()]);
        }
    }
    lemma_last_index_of(url, '/');
    let r = last_index_of(url, '/');
    assert(r == d);
    assert(last_segment(url) =~= seg);
    let b = base.len() as int;
    assert(seg.subrange(b, b + ext.len()) =~= ext);
    assert(occurs_at(seg, ext, b));
    lemma_first_occurrence_from(seg, ext, 0);
    let f = first_occurrence(seg, ext);
    if f == -1 {
        assert(!occurs_at(seg, ext, b));
    } else {
        if f < b {
            assert(!occurs_at(seg, ext, f));
        }
        if f > b {
            assert(!occurs_at(seg, ext, b));
        }
    }
    assert(f == b);
    assert(seg.subrange(0, b + ext.len()) =~= base + ext);
    assert(file_name_spec(url) == base + ext);
    assert(dir + "/"@ + base + ext + suffix =~= url);
}

proof fn proof_slash_len()
    ensures
        "/"@.len() == 1,
        "/"@[0] == '/',
{
    reveal_strlit("/");
}

/// How one download ended.
#[derive(Debug, Clone, Copy, PartialEq, Eq, Structural)]
pub enum DownloadOutcome {
    /// The file was fetched and stored.
    Downloaded,
    /// The file was already present; nothing was fetched.
    Skipped,
    /// Fetching or storing the file failed.
    Failed,
}

/// Where a download stands.
#[derive(Debug, Clone, Copy, PartialEq, Eq, Structural)]
pub enum DownloadPhase {
    /// Waiting to learn whether the file is present.
    Checking,
    /// Waiting for the body to be fetched into the temporary file.
    Fetching,
    /// Waiting for the temporary file to be renamed into place.
    Committing,
    /// Finished.
    Done(DownloadOutcome),
}

/// What the caller reports after performing a step.
#[derive(Debug, Clone, Copy, PartialEq, Eq, Structural)]
pub enum DownloadEvent {
    /// Whether the destination file already exists.
    Existing(bool),
    /// Whether the body was fetched and written to the temporary file.
    Fetched(bool),
    /// Whether the temporary file was renamed into place.
    Committed(bool),
}

/// The next thing the caller does for a download.
#[derive(Debug)]
pub enum DownloadStep {
    /// Check whether `file_name` exists in the destination directory.
    CheckExisting { file_name: String },
    /// Fetch `url` and stream its body into `temp_name` in the destination directory.
    Fetch { url: String, temp_name: String },
    /// Rename `temp_name` to `file_name` in the destination directory.
    Commit { temp_name: String, file_name: String },
    /// Nothing more: the download ended with this outcome.
    Finished(DownloadOutcome),
}

/// The phase that follows `p` once `e` is reported. An event that does not
/// answer the pending step ends the download as failed.
pub open spec fn next_phase(p: DownloadPhase, e: DownloadEvent) -> DownloadPhase {
    match p {
        DownloadPhase::Checking => match e {
            DownloadEvent::Existing(true) => DownloadPhase::Done(DownloadOutcome::Skipped),
            DownloadEvent::Existing(false) => DownloadPhase::Fetching,
            _ => DownloadPhase::Done(DownloadOutcome::Failed),
        },
        DownloadPhase::Fetching => match e {
            DownloadEvent::Fetched(true) => DownloadPhase::Committing,
            _ => DownloadPhase::Done(DownloadOutcome::Failed),
        },
        DownloadPhase::Committing => match e {
            DownloadEvent::Committed(true) => DownloadPhase::Done(DownloadOutcome::Downloaded),
            _ => DownloadPhase::Done(DownloadOutcome::Failed),
        },
        DownloadPhase::Done(o) => DownloadPhase::Done(o),
    }
}

/// The step that the phase `p` asks of the caller, for a download of `url`
/// stored as `file_name`.
pub open spec fn step_matches(s: DownloadStep, p: DownloadPhase, url: Seq<char>, file_name: Seq<char>) -> bool {
    match p {
        DownloadPhase::Checking => s matches DownloadStep::CheckExisting { file_name: f } && f@
            == file_name,
        DownloadPhase::Fetching => s matches DownloadStep::Fetch { url: u, temp_name: t } && u@
            == url && t@ == temp_name_spec(file_name),
        DownloadPhase::Committing => s matches DownloadStep::Commit { temp_name: t, file_name: f }
            && t@ == temp_name_spec(file_name) && f@ == file_name,
        DownloadPhase::Done(o) => s == DownloadStep::Finished(o),
    }
}

/// One download of a file link into a destination directory.
pub struct DownloadJob {
    url: String,
    file_name: String,
    phase: DownloadPhase,
}

impl DownloadJob {
    /// The link being downloaded.
    pub closed spec fn url_spec(&self) -> Seq<char> {
        self.url@
    }

    /// The name the file is stored under.
    pub closed spec fn file_name_view(&self) -> Seq<char> {
        self.file_name@
    }

    /// Where the download stands.
    pub closed spec fn phase_spec(&self) -> DownloadPhase {
        self.phase
    }

    /// Starts a download of `url`, together with its first step: checking
    /// whether the file is already present. An error where `url` names no file.
    pub fn new(url: &str) -> (r: Result<(DownloadJob, DownloadStep), AppError>)
        ensures
            file_name_spec(url@).len() == 0 <==> r is Err,
            match r {
                Ok((job, step)) => job.url_spec() == url@ && job.file_name_view() == file_name_spec(
                    url@,
                ) && job.phase_spec() == DownloadPhase::Checking && step_matches(
                    step,
                    DownloadPhase::Checking,
                    url@,
                    file_name_spec(url@),
                ),
                Err(e) => e == AppError::NoFileName,
            },
    {
        let file_name = destination_filename(url);
        if file_name.as_str().unicode_len() == 0 {
            return Err(AppError::NoFileName);
        }
        let step = DownloadStep::CheckExisting { file_name: file_name.clone() };
        Ok((DownloadJob { url: String::from_str(url), file_name, phase: DownloadPhase::Checking }, step))
    }

    /// Where the download stands.
    pub fn phase(&self) -> (r: DownloadPhase)
        ensures
            r == self.phase_spec(),
    {
        self.phase
    }

    /// Takes in what the last step yielded and returns the next step.
    pub fn advance(&mut self, event: DownloadEvent) -> (r: DownloadStep)
        ensures
            final(self).url_spec() == old(self).url_spec(),
            final(self).file_name_view() == old(self).file_name_view(),
            final(self).phase_spec() == next_phase(old(self).phase_spec(), event),
            step_matches(r, final(self).phase_spec(), old(self).url_spec(), old(self).file_name_view()),
    {
        let next = match self.phase {
            DownloadPhase::Checking => match event {
                DownloadEvent::Existing(true) => DownloadPhase::Done(DownloadOutcome::Skipped),
                DownloadEvent::Existing(false) => DownloadPhase::Fetching,
                _ => DownloadPhase::Done(DownloadOutcome::Failed),
            },
            DownloadPhase::Fetching => match event {
                DownloadEvent::Fetched(true) => DownloadPhase::Committing,
                _ => DownloadPhase::Done(DownloadOutcome::Failed),
            },
            DownloadPhase::Committing => match event {
                DownloadEvent::Committed(true) => DownloadPhase::Done(DownloadOutcome::Downloaded),
                _ => DownloadPhase::Done(DownloadOutcome::Failed),
            },
            DownloadPhase::Done(o) => DownloadPhase::Done(o),
        };
        self.phase = next;
        match next {
            DownloadPhase::Checking => DownloadStep::CheckExisting { file_name: self.file_name.clone() },
            DownloadPhase::Fetching => DownloadStep::Fetch {
                url: self.url.clone(),
                temp_name: concat(self.file_name.as_str(), ".part"),
            },
            DownloadPhase::Committing => DownloadStep::Commit {
                temp_name: concat(self.file_name.as_str(), ".part"),
                file_name: self.file_name.clone(),
            },
            DownloadPhase::Done(o) => DownloadStep::Finished(o),
        }
    }
}

/// One run of a download of `url` into a directory holding the files
/// `present`, where fetching succeeds as `fetch_ok` says and renaming as
/// `commit_ok` says: its outcome, whether it fetched, and the files present
/// afterwards.
pub open spec fn download_run(
    present: Set<Seq<char>>,
    url: Seq<char>,
    fetch_ok: bool,
    commit_ok: bool,
) -> (DownloadOutcome, bool, Set<Seq<char>>) {
    let name = file_name_spec(url);
    let p1 = next_phase(DownloadPhase::Checking, DownloadEvent::Existing(present.contains(name)));
    if p1 == DownloadPhase::Fetching {
        let p2 = next_phase(p1, DownloadEvent::Fetched(fetch_ok));
        let p3 = next_phase(p2, DownloadEvent::Committed(commit_ok));
        match p3 {
            DownloadPhase::Done(DownloadOutcome::Downloaded) => (
                DownloadOutcome::Downloaded,
                true,
                present.insert(name),
            ),
            _ => (DownloadOutcome::Failed, true, present),
        }
    } else {
        match p1 {
            DownloadPhase::Done(o) => (o, false, present),
            _ => (DownloadOutcome::Failed, false, present),
        }
    }
}

/// Downloading the same link into the same directory a second time, after a
/// first download that succeeded (by fetching or by skipping), fetches
/// nothing and succeeds as a skip: the link is fetched at most once.
pub proof fn lemma_download_idempotent(
    present: Set<Seq<char>>,
    url: Seq<char>,
    fetch1: bool,
    commit1: bool,
    fetch2: bool,
    commit2: bool,
)
    requires
        download_run(present, url, fetch1, commit1).0 != DownloadOutcome::Failed,
    ensures
        ({
            let after = download_run(present, url, fetch1, commit1).2;
            let second = download_run(after, url, fetch2, commit2);
            &&& second.0 == DownloadOutcome::Skipped
            &&& !second.1
            &&& second.2 == after
        }),
{
}

/// How many downloads ended in each way.
#[derive(Debug, Clone, Copy, PartialEq, Eq, Structural)]
pub struct DownloadSummary {
    pub downloaded: usize,
    pub skipped: usize,
    pub failed: usize,
}

/// How many of `outcomes` are `o`.
pub open spec fn count_outcome(outcomes: Seq<DownloadOutcome>, o: DownloadOutcome) -> nat
    decreases outcomes.len(),
{
    if outcomes.len() == 0 {
        0
    } else {
        count_outcome(outcomes.drop_last(), o) + if outcomes.last() == o {
            1nat
        } else {
            0nat
        }
    }
}

/// Tallies `outcomes` into downloaded, skipped and failed counts.
pub fn summarize(outcomes: &Vec<DownloadOutcome>) -> (r: DownloadSummary)
    ensures
        r.downloaded == count_outcome(outcomes@, DownloadOutcome::Downloaded),
        r.skipped == count_outcome(outcomes@, DownloadOutcome::Skipped),
        r.failed == count_outcome(outcomes@, DownloadOutcome::Failed),
{
    let mut r = DownloadSummary { downloaded: 0, skipped: 0, failed: 0 };
    let mut i: usize = 0;
    while i < outcomes.len()
        invariant
            i <= outcomes@.len(),
            r.downloaded + r.skipped + r.failed == i,
            r.downloaded == count_outcome(outcomes@.subrange(0, i as int), DownloadOutcome::Downloaded),
            r.skipped == count_outcome(outcomes@.subrange(0, i as int), DownloadOutcome::Skipped),
            r.failed == count_outcome(outcomes@.subrange(0, i as int), DownloadOutcome::Failed),
        decreases outcomes@.len() - i,
    {
        assert(outcomes@.subrange(0, i + 1).drop_last() =~= outcomes@.subrange(0, i as int));
        match outcomes[i] {
            DownloadOutcome::Downloaded => r.downloaded = r.downloaded + 1,
            DownloadOutcome::Skipped => r.skipped = r.skipped + 1,
            DownloadOutcome::Failed => r.failed = r.failed + 1,
        }
        i = i + 1;
    }
    assert(outcomes@.subrange(0, outcomes@.len() as int) =~= outcomes@);
    r
}

/// A run of downloads of `urls`, one after another, into a directory
/// holding the files `present`, where every fetch and every rename succeeds:
/// the outcomes, how many fetches were made, and the files present afterwards.
pub open spec fn download_all(present: Set<Seq<char>>, urls: Seq<Seq<char>>) -> (
    Seq<DownloadOutcome>,
    nat,
    Set<Seq<char>>,
)
    decreases urls.len(),
{
    if urls.len() == 0 {
        (Seq::empty(), 0, present)
    } else {
        let prev = download_all(present, urls.drop_last());
        let r = download_run(prev.2, urls.last(), true, true);
        (prev.0.push(r.0), prev.1 + if r.1 {
            1nat
        } else {
            0nat
        }, r.2)
    }
}

/// The links of `urls` name pairwise different files, none of them in `present`.
pub open spec fn fresh_distinct_files(present: Set<Seq<char>>, urls: Seq<Seq<char>>) -> bool {
    &&& forall|i: int, j: int|
        0 <= i < j < urls.len() ==> file_name_spec(#[trigger] urls[i]) != file_name_spec(
            #[trigger] urls[j],
        )
    &&& forall|i: int| 0 <= i < urls.len() ==> !present.contains(file_name_spec(#[trigger] urls[i]))
}

proof fn lemma_first_run(present: Set<Seq<char>>, urls: Seq<Seq<char>>)
    requires
        fresh_distinct_files(present, urls),
    ensures
        download_all(present, urls).0.len() == urls.len(),
        forall|i: int|
            0 <= i < urls.len() ==> #[trigger] download_all(present, urls).0[i]
                == DownloadOutcome::Downloaded,
        download_all(present, urls).1 == urls.len(),
        forall|x: Seq<char>|
            #[trigger] download_all(present, urls).2.contains(x) <==> (present.contains(x) || exists|
                i: int,
            | 0 <= i < urls.len() && file_name_spec(urls[i]) == x),
    decreases urls.len(),
{
    if urls.len() > 0 {
        let b = urls.drop_last();
        let n = urls.len() - 1;
        assert(forall|i: int| 0 <= i < b.len() ==> b[i] == urls[i]);
        assert(fresh_distinct_files(present, b));
        lemma_first_run(present, b);
        let prev = download_all(present, b);
        let name = file_name_spec(urls.last());
        assert(!present.contains(name));
        assert forall|i: int| 0 <= i < b.len() implies file_name_spec(b[i]) != name by {
            assert(file_name_spec(urls[i]) != file_name_spec(urls[n]));
        }
        assert(!prev.2.contains(name));
        let all = download_all(present, urls);
        assert forall|x: Seq<char>|
            #[trigger] all.2.contains(x) <==> (present.contains(x) || exists|i: int|
                0 <= i < urls.len() && file_name_spec(urls[i]) == x) by {
            if x == name {
                assert(file_name_spec(urls[n]) == x);
            } else if prev.2.contains(x) && !present.contains(x) {
                let i = choose|i: int| 0 <= i < b.len() && file_name_spec(b[i]) == x;
                assert(file_name_spec(urls[i]) == x);
            } else if exists|i: int| 0 <= i < urls.len() && file_name_spec(urls[i]) == x {
                let i = choose|i: int| 0 <= i < urls.len() && file_name_spec(urls[i]) == x;
                assert(i < n);
                assert(file_name_spec(b[i]) == x);
            }
        }
    }
}

proof fn lemma_second_run(present: Set<Seq<char>>, urls: Seq<Seq<char>>)
    requires
        forall|i: int| 0 <= i < urls.len() ==> present.contains(file_name_spec(#[trigger] urls[i])),
    ensures
        download_all(present, urls).0.len() == urls.len(),
        forall|i: int|
            0 <= i < urls.len() ==> #[trigger] download_all(present, urls).0[i]
                == DownloadOutcome::Skipped,
        download_all(present, urls).1 == 0,
        download_all(present, urls).2 == present,
    decreases urls.len(),
{
    if urls.len() > 0 {
        let b = urls.drop_last();
        assert(forall|i: int| 0 <= i < b.len() ==> b[i] == urls[i]);
        lemma_second_run(present, b);
        assert(present.contains(file_name_spec(urls[urls.len() - 1])));
    }
}

proof fn lemma_count_uniform(os: Seq<DownloadOutcome>, o: DownloadOutcome)
    requires
        forall|i: int| 0 <= i < os.len() ==> os[i] == o,
    ensures
        count_outcome(os, o) == os.len(),
        forall|p: DownloadOutcome| p != o ==> #[trigger] count_outcome(os, p) == 0,
    decreases os.len(),
{
    if os.len() > 0 {
        let b = os.drop_last();
        assert(forall|i: int| 0 <= i < b.len() ==> b[i] == os[i]);
        lemma_count_uniform(b, o);
        assert(os.last() == o);
        assert forall|p: DownloadOutcome| p != o implies #[trigger] count_outcome(os, p) == 0 by {
            assert(count_outcome(b, p) == 0);
        }
    }
}

/// Downloading links that name different files, none of them present, makes
/// one download per link, all fetched; doing it again over the same
/// directory makes one download per link again, all skipped, with no fetch
/// and no change to the directory.
pub proof fn lemma_repeated_run_skips_everything(present: Set<Seq<char>>, urls: Seq<Seq<char>>)
    requires
        fresh_distinct_files(present, urls),
    ensures
        ({
            let first = download_all(present, urls);
            let second = download_all(first.2, urls);
            &&& first.0.len() == urls.len()
            &&& count_outcome(first.0, DownloadOutcome::Downloaded) == urls.len()
            &&& count_outcome(first.0, DownloadOutcome::Skipped) == 0
            &&& count_outcome(first.0, DownloadOutcome::Failed) == 0
            &&& first.1 == urls.len()
            &&& second.0.len() == urls.len()
            &&& count_outcome(second.0, DownloadOutcome::Skipped) == urls.len()
            &&& count_outcome(second.0, DownloadOutcome::Downloaded) == 0
            &&& count_outcome(second.0, DownloadOutcome::Failed) == 0
            &&& second.1 == 0
            &&& second.2 == first.2
        }),
{
    lemma_first_run(present, urls);
    let first = download_all(present, urls);
    lemma_count_uniform(first.0, DownloadOutcome::Downloaded);
    assert forall|i: int| 0 <= i < urls.len() implies first.2.contains(
        file_name_spec(#[trigger] urls[i]),
    ) by {
        assert(exists|j: int| 0 <= j < urls.len() && file_name_spec(urls[j]) == file_name_spec(urls[i]));
    }
    lemma_second_run(first.2, urls);
    lemma_count_uniform(download_all(first.2, urls).0, DownloadOutcome::Skipped);
}

} // verus!
