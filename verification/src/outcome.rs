//! What optimizing one asset comes to, how the run's report adds outcomes
//! up, and which assets a run takes on.

use vstd::prelude::*;
use crate::jpeg::{
    copy_jpeg_metadata, copy_jpeg_metadata_except_exif, jpeg_error_text, with_copied_metadata,
    with_copied_metadata_except_exif,
};
use crate::kinds::{AssetKind, FormatFilter, StripPolicy};
use crate::path::asset_kind;
use crate::text::{decimal_seq, decimal_string, push_str, string_from_chars};
use crate::webp::{optimize_webp_container, optimized_webp, webp_error_text, webp_has_animation, webp_is_animated};

verus! {

broadcast use vstd::string::group_string_axioms;

/// The result of optimizing one asset.
#[derive(Debug)]
pub enum OptimizeOutcome {
    /// A smaller encoding was found (and, unless dry-running, written).
    Optimized { before: u64, after: u64 },
    /// No smaller encoding was found; the file keeps its size.
    Unchanged { size: u64 },
    /// The asset was left alone on purpose.
    Skipped { reason: String, size: u64 },
    /// Processing the asset failed.
    Failed { error: String },
}

/// An outcome that is internally consistent: an optimization shrinks.
pub open spec fn outcome_consistent(o: OptimizeOutcome) -> bool {
    match o {
        OptimizeOutcome::Optimized { before, after } => after < before,
        _ => true,
    }
}

/// A backend result with its bytes and error text taken by their views.
pub open spec fn result_bytes(r: Result<Vec<u8>, String>) -> Result<Seq<u8>, Seq<char>> {
    match r {
        Ok(b) => Ok(b@),
        Err(e) => Err(e@),
    }
}

/// The bytes written over an asset of `before` bytes for a backend result:
/// the output when it is strictly smaller and the run is not a dry run,
/// nothing otherwise (an error writes nothing).
pub open spec fn write_of<E>(result: Result<Seq<u8>, E>, before: int, dry_run: bool) -> Option<Seq<u8>> {
    match result {
        Ok(out) => if out.len() < before && !dry_run {
            Some(out)
        } else {
            None
        },
        Err(_) => None,
    }
}

/// The bytes to write, taken by their view.
pub open spec fn written(w: Option<Vec<u8>>) -> Option<Seq<u8>> {
    match w {
        Some(b) => Some(b@),
        None => None,
    }
}

/// Decides what an optimization attempt amounts to. Returns the outcome and
/// whether the optimized bytes are to be written over the file: only a
/// strictly smaller result counts, and nothing is written on a dry run.
pub fn maybe_replace(optimized: &[u8], before: u64, dry_run: bool) -> (r: (OptimizeOutcome, bool))
    ensures
        optimized@.len() >= before ==> r.0 == (OptimizeOutcome::Unchanged { size: before }) && !r.1,
        optimized@.len() < before ==> r.0 == (OptimizeOutcome::Optimized {
            before,
            after: optimized@.len() as u64,
        }) && r.1 == !dry_run,
        r.1 == write_of(Ok::<Seq<u8>, Seq<char>>(optimized@), before as int, dry_run) is Some,
        outcome_consistent(r.0),
{
    let after = optimized.len() as u64;
    if after >= before {
        return (OptimizeOutcome::Unchanged { size: before }, false);
    }
    (OptimizeOutcome::Optimized { before, after }, !dry_run)
}

/// A skip with a known file size.
pub fn skipped_with_size(size: u64, reason: &str) -> (r: OptimizeOutcome)
    ensures
        r matches OptimizeOutcome::Skipped { reason: text, size: s } && text@ == reason@ && s == size,
{
    OptimizeOutcome::Skipped { reason: reason.to_string(), size }
}

/// A skip, given the file's size or the error met reading it; an error
/// makes the outcome a failure.
pub fn skipped(size: Result<u64, String>, reason: &str) -> (r: OptimizeOutcome)
    ensures
        match size {
            Ok(n) => r matches OptimizeOutcome::Skipped { reason: text, size: s } && text@ == reason@ && s
                == n,
            Err(e) => r matches OptimizeOutcome::Failed { error } && error@ == e@,
        },
{
    match size {
        Ok(n) => skipped_with_size(n, reason),
        Err(e) => OptimizeOutcome::Failed { error: e },
    }
}

/// How an asset of a given kind is handled.
#[derive(Debug)]
pub enum AssetPlan {
    /// Lossless PNG recompression.
    Png,
    /// JPEG optimization through the libjpeg-turbo tools.
    Jpeg,
    /// WebP container cleanup, or lossy re-encoding.
    Webp,
    /// Conservative SVG text optimization.
    Svg,
    /// Left alone, for the given reason.
    Skip(String),
}

/// The reason an asset of kind `k` is left alone, if it is.
pub open spec fn skip_reason(k: AssetKind) -> Option<Seq<char>> {
    match k {
        AssetKind::Gif => Some("GIF backend is not implemented yet"@),
        AssetKind::Bmp | AssetKind::Wbmp => Some(
            "BMP/WBMP are kept as-is because meaningful savings require conversion"@,
        ),
        AssetKind::Other => Some("unsupported file type"@),
        _ => None,
    }
}

/// How an asset of kind `kind` is optimized: the backend it goes to, or
/// why it is skipped.
pub fn optimize_asset(kind: AssetKind) -> (p: AssetPlan)
    ensures
        match skip_reason(kind) {
            Some(reason) => p matches AssetPlan::Skip(text) && text@ == reason,
            None => match kind {
                AssetKind::Png => p is Png,
                AssetKind::Jpeg => p is Jpeg,
                AssetKind::Webp => p is Webp,
                _ => p is Svg,
            },
        },
{
    match kind {
        AssetKind::Png => AssetPlan::Png,
        AssetKind::Jpeg => AssetPlan::Jpeg,
        AssetKind::Webp => AssetPlan::Webp,
        AssetKind::Svg => AssetPlan::Svg,
        AssetKind::Gif => AssetPlan::Skip("GIF backend is not implemented yet".to_string()),
        AssetKind::Bmp | AssetKind::Wbmp => AssetPlan::Skip(
            "BMP/WBMP are kept as-is because meaningful savings require conversion".to_string(),
        ),
        AssetKind::Other => AssetPlan::Skip("unsupported file type".to_string()),
    }
}

/// The format filter that selects assets of kind `k`, if any does.
pub open spec fn filter_selects(f: FormatFilter, k: AssetKind) -> bool {
    match (f, k) {
        (FormatFilter::Png, AssetKind::Png) => true,
        (FormatFilter::Jpeg, AssetKind::Jpeg) => true,
        (FormatFilter::Webp, AssetKind::Webp) => true,
        (FormatFilter::Svg, AssetKind::Svg) => true,
        (FormatFilter::Gif, AssetKind::Gif) => true,
        (FormatFilter::Bmp, AssetKind::Bmp) => true,
        (FormatFilter::Wbmp, AssetKind::Wbmp) => true,
        _ => false,
    }
}

/// Does one filter select kind `kind`?
fn selects(f: FormatFilter, kind: AssetKind) -> (b: bool)
    ensures
        b == filter_selects(f, kind),
{
    match (f, kind) {
        (FormatFilter::Png, AssetKind::Png) => true,
        (FormatFilter::Jpeg, AssetKind::Jpeg) => true,
        (FormatFilter::Webp, AssetKind::Webp) => true,
        (FormatFilter::Svg, AssetKind::Svg) => true,
        (FormatFilter::Gif, AssetKind::Gif) => true,
        (FormatFilter::Bmp, AssetKind::Bmp) => true,
        (FormatFilter::Wbmp, AssetKind::Wbmp) => true,
        _ => false,
    }
}

/// Is an asset of kind `kind` processed under the `--format` filters? With
/// no filter every kind is; otherwise a filter must name it.
pub fn should_process_format(kind: AssetKind, filters: &[FormatFilter]) -> (b: bool)
    ensures
        b == (filters@.len() == 0 || exists|i: int| 0 <= i < filters@.len() && filter_selects(filters@[i], kind)),
{
    if filters.len() == 0 {
        return true;
    }
    let mut i: usize = 0;
    while i < filters.len()
        invariant
            i <= filters@.len(),
            forall|j: int| 0 <= j < i ==> !filter_selects(filters@[j], kind),
        decreases filters@.len() - i,
    {
        if selects(filters[i], kind) {
            return true;
        }
        i = i + 1;
    }
    false
}

/// The number of discovered assets of each supported kind.
#[derive(Debug, Clone, Copy, PartialEq, Eq, Structural)]
pub struct AssetCounts {
    pub png: usize,
    pub jpeg: usize,
    pub webp: usize,
    pub svg: usize,
    pub gif: usize,
    pub bmp: usize,
    pub wbmp: usize,
}

/// How many of `paths` have kind `k`.
pub open spec fn count_kind(paths: Seq<Seq<char>>, k: AssetKind) -> nat
    decreases paths.len(),
{
    if paths.len() == 0 {
        0
    } else {
        count_kind(paths.drop_last(), k) + if asset_kind(paths.last()) == k {
            1nat
        } else {
            0nat
        }
    }
}

proof fn lemma_count_kind_bound(paths: Seq<Seq<char>>, k: AssetKind)
    ensures
        count_kind(paths, k) <= paths.len(),
    decreases paths.len(),
{
    if paths.len() > 0 {
        lemma_count_kind_bound(paths.drop_last(), k);
    }
}

/// Counts the assets among `paths` by kind; paths of other kinds are not
/// counted.
pub fn count_assets_by_kind(paths: &[String]) -> (c: AssetCounts)
    ensures
        c.png == count_kind(paths@.map_values(|p: String| p@), AssetKind::Png),
        c.jpeg == count_kind(paths@.map_values(|p: String| p@), AssetKind::Jpeg),
        c.webp == count_kind(paths@.map_values(|p: String| p@), AssetKind::Webp),
        c.svg == count_kind(paths@.map_values(|p: String| p@), AssetKind::Svg),
        c.gif == count_kind(paths@.map_values(|p: String| p@), AssetKind::Gif),
        c.bmp == count_kind(paths@.map_values(|p: String| p@), AssetKind::Bmp),
        c.wbmp == count_kind(paths@.map_values(|p: String| p@), AssetKind::Wbmp),
{
    let ghost views = paths@.map_values(|p: String| p@);
    let mut c = AssetCounts { png: 0, jpeg: 0, webp: 0, svg: 0, gif: 0, bmp: 0, wbmp: 0 };
    let mut i: usize = 0;
    assert(views.take(0) =~= Seq::<Seq<char>>::empty());
    while i < paths.len()
        invariant
            i <= paths@.len(),
            views == paths@.map_values(|p: String| p@),
            c.png == count_kind(views.take(i as int), AssetKind::Png),
            c.jpeg == count_kind(views.take(i as int), AssetKind::Jpeg),
            c.webp == count_kind(views.take(i as int), AssetKind::Webp),
            c.svg == count_kind(views.take(i as int), AssetKind::Svg),
            c.gif == count_kind(views.take(i as int), AssetKind::Gif),
            c.bmp == count_kind(views.take(i as int), AssetKind::Bmp),
            c.wbmp == count_kind(views.take(i as int), AssetKind::Wbmp),
        decreases paths@.len() - i,
    {
        let ghost prev = views.take(i as int);
        let ghost next = views.take(i + 1);
        proof {
            assert(next.drop_last() =~= prev);
            assert(next.last() == paths@[i as int]@);
            lemma_count_kind_bound(prev, AssetKind::Png);
            lemma_count_kind_bound(prev, AssetKind::Jpeg);
            lemma_count_kind_bound(prev, AssetKind::Webp);
            lemma_count_kind_bound(prev, AssetKind::Svg);
            lemma_count_kind_bound(prev, AssetKind::Gif);
            lemma_count_kind_bound(prev, AssetKind::Bmp);
            lemma_count_kind_bound(prev, AssetKind::Wbmp);
        }
        match crate::path::classify_asset(paths[i].as_str()) {
            AssetKind::Png => c.png = c.png + 1,
            AssetKind::Jpeg => c.jpeg = c.jpeg + 1,
            AssetKind::Webp => c.webp = c.webp + 1,
            AssetKind::Svg => c.svg = c.svg + 1,
            AssetKind::Gif => c.gif = c.gif + 1,
            AssetKind::Bmp => c.bmp = c.bmp + 1,
            AssetKind::Wbmp => c.wbmp = c.wbmp + 1,
            AssetKind::Other => {},
        }
        i = i + 1;
    }
    assert(views.take(paths@.len() as int) =~= views);
    c
}

/// The running totals of an optimization run.
#[derive(Debug, Clone, Copy, PartialEq, Eq, Structural)]
pub struct Report {
    pub optimized: usize,
    pub unchanged: usize,
    pub skipped: usize,
    pub failed: usize,
    pub before_bytes: u64,
    pub after_bytes: u64,
    pub opportunities: usize,
}

/// The report after recording `o`.
pub open spec fn recorded(r: Report, o: OptimizeOutcome) -> Report {
    match o {
        OptimizeOutcome::Optimized { before, after } => Report {
            optimized: (r.optimized + 1) as usize,
            opportunities: (r.opportunities + 1) as usize,
            before_bytes: (r.before_bytes + before) as u64,
            after_bytes: (r.after_bytes + after) as u64,
            ..r
        },
        OptimizeOutcome::Unchanged { size } => Report {
            unchanged: (r.unchanged + 1) as usize,
            before_bytes: (r.before_bytes + size) as u64,
            after_bytes: (r.after_bytes + size) as u64,
            ..r
        },
        OptimizeOutcome::Skipped { size, .. } => Report {
            skipped: (r.skipped + 1) as usize,
            before_bytes: (r.before_bytes + size) as u64,
            after_bytes: (r.after_bytes + size) as u64,
            ..r
        },
        OptimizeOutcome::Failed { .. } => Report { failed: (r.failed + 1) as usize, ..r },
    }
}

/// Recording `o` in `r` overflows no counter.
pub open spec fn fits(r: Report, o: OptimizeOutcome) -> bool {
    match o {
        OptimizeOutcome::Optimized { before, after } => {
            &&& r.optimized + 1 <= usize::MAX
            &&& r.opportunities + 1 <= usize::MAX
            &&& r.before_bytes + before <= u64::MAX
            &&& r.after_bytes + after <= u64::MAX
        },
        OptimizeOutcome::Unchanged { size } => {
            &&& r.unchanged + 1 <= usize::MAX
            &&& r.before_bytes + size <= u64::MAX
            &&& r.after_bytes + size <= u64::MAX
        },
        OptimizeOutcome::Skipped { size, .. } => {
            &&& r.skipped + 1 <= usize::MAX
            &&& r.before_bytes + size <= u64::MAX
            &&& r.after_bytes + size <= u64::MAX
        },
        OptimizeOutcome::Failed { .. } => r.failed + 1 <= usize::MAX,
    }
}

/// Why a run ends with an error once every asset was processed.
#[derive(Debug, Clone, Copy, PartialEq, Eq, Structural)]
pub enum RunFailure {
    /// `--check` found this many assets that can be optimized.
    Optimizable(usize),
    /// This many assets failed to process.
    Failed(usize),
}

/// The text of a run failure.
pub open spec fn run_failure_text(f: RunFailure) -> Seq<char> {
    match f {
        RunFailure::Optimizable(n) => decimal_seq(n as nat)
            + " asset(s) can be optimized; run without --check to update them"@,
        RunFailure::Failed(n) => decimal_seq(n as nat) + " asset(s) failed to process"@,
    }
}

impl RunFailure {
    /// The error message of the failure.
    pub fn message(&self) -> (s: String)
        ensures
            s@ == run_failure_text(*self),
    {
        let mut v: Vec<char> = Vec::new();
        match self {
            RunFailure::Optimizable(n) => {
                let d = decimal_string(*n as u64);
                push_str(&mut v, d.as_str());
                push_str(&mut v, " asset(s) can be optimized; run without --check to update them");
            },
            RunFailure::Failed(n) => {
                let d = decimal_string(*n as u64);
                push_str(&mut v, d.as_str());
                push_str(&mut v, " asset(s) failed to process");
            },
        }
        string_from_chars(v.as_slice())
    }
}

impl Report {
    /// The empty report.
    pub open spec fn new_spec() -> Report {
        Report {
            optimized: 0,
            unchanged: 0,
            skipped: 0,
            failed: 0,
            before_bytes: 0,
            after_bytes: 0,
            opportunities: 0,
        }
    }

    /// An empty report.
    pub fn new() -> (r: Report)
        ensures
            r == (Report {
                optimized: 0,
                unchanged: 0,
                skipped: 0,
                failed: 0,
                before_bytes: 0,
                after_bytes: 0,
                opportunities: 0,
            }),
            report_consistent(r),
    {
        Report {
            optimized: 0,
            unchanged: 0,
            skipped: 0,
            failed: 0,
            before_bytes: 0,
            after_bytes: 0,
            opportunities: 0,
        }
    }

    /// Can `before` and `after` be added to the byte totals?
    fn sizes_fit(&self, before: u64, after: u64) -> (ok: bool)
        ensures
            ok == (self.before_bytes + before <= u64::MAX && self.after_bytes + after <= u64::MAX),
    {
        self.before_bytes <= u64::MAX - before && self.after_bytes <= u64::MAX - after
    }

    /// Can `outcome` be recorded without overflowing a counter?
    pub fn fits(&self, outcome: &OptimizeOutcome) -> (b: bool)
        ensures
            b == fits(*self, *outcome),
    {
        match outcome {
            OptimizeOutcome::Optimized { before, after } => {
                self.optimized < usize::MAX && self.opportunities < usize::MAX && self.sizes_fit(*before, *after)
            },
            OptimizeOutcome::Unchanged { size } => self.unchanged < usize::MAX && self.sizes_fit(*size, *size),
            OptimizeOutcome::Skipped { size, .. } => self.skipped < usize::MAX && self.sizes_fit(*size, *size),
            OptimizeOutcome::Failed { .. } => self.failed < usize::MAX,
        }
    }

    /// Adds one asset's outcome to the totals: an optimized asset counts as
    /// an opportunity and adds its sizes before and after; an unchanged or
    /// skipped one adds its size to both totals; a failure adds no size.
    pub fn apply_outcome(&mut self, outcome: &OptimizeOutcome)
        requires
            fits(*old(self), *outcome),
        ensures
            *final(self) == recorded(*old(self), *outcome),
    {
        match outcome {
            OptimizeOutcome::Optimized { before, after } => {
                self.optimized = self.optimized + 1;
                self.opportunities = self.opportunities + 1;
                self.before_bytes = self.before_bytes + *before;
                self.after_bytes = self.after_bytes + *after;
            },
            OptimizeOutcome::Unchanged { size } => {
                self.unchanged = self.unchanged + 1;
                self.before_bytes = self.before_bytes + *size;
                self.after_bytes = self.after_bytes + *size;
            },
            OptimizeOutcome::Skipped { size, .. } => {
                self.skipped = self.skipped + 1;
                self.before_bytes = self.before_bytes + *size;
                self.after_bytes = self.after_bytes + *size;
            },
            OptimizeOutcome::Failed { .. } => {
                self.failed = self.failed + 1;
            },
        }
    }

    /// The bytes saved over the run, never below zero.
    pub fn saved_bytes(&self) -> (s: u64)
        ensures
            s == if self.before_bytes >= self.after_bytes {
                (self.before_bytes - self.after_bytes) as u64
            } else {
                0
            },
    {
        self.before_bytes.saturating_sub(self.after_bytes)
    }

    /// Adds the outcomes of a run, in order, to the totals.
    pub fn apply_all(&mut self, outcomes: &[OptimizeOutcome])
        requires
            fits_all(*old(self), outcomes@),
        ensures
            *final(self) == recorded_all(*old(self), outcomes@),
    {
        let ghost start = *self;
        let mut i: usize = 0;
        assert(outcomes@.take(0) =~= Seq::<OptimizeOutcome>::empty());
        while i < outcomes.len()
            invariant
                i <= outcomes@.len(),
                fits_all(start, outcomes@),
                *self == recorded_all(start, outcomes@.take(i as int)),
            decreases outcomes@.len() - i,
        {
            proof {
                lemma_fits_all_prefix(start, outcomes@, i + 1);
                assert(outcomes@.take(i + 1).drop_last() =~= outcomes@.take(i as int));
                assert(outcomes@.take(i + 1).last() == outcomes@[i as int]);
            }
            self.apply_outcome(&outcomes[i]);
            i = i + 1;
        }
        assert(outcomes@.take(outcomes@.len() as int) =~= outcomes@);
    }

    /// How the run ends: with `--check`, any opportunity is an error;
    /// otherwise, and after that, any failure is.
    pub fn verdict(&self, check: bool) -> (r: Result<(), RunFailure>)
        ensures
            check && self.opportunities > 0 ==> r == Err::<(), RunFailure>(RunFailure::Optimizable(self.opportunities)),
            !(check && self.opportunities > 0) && self.failed > 0 ==> r == Err::<(), RunFailure>(
                RunFailure::Failed(self.failed),
            ),
            !(check && self.opportunities > 0) && self.failed == 0 ==> r is Ok,
    {
        if check && self.opportunities > 0 {
            return Err(RunFailure::Optimizable(self.opportunities));
        }
        if self.failed > 0 {
            return Err(RunFailure::Failed(self.failed));
        }
        Ok(())
    }
}

/// A report in which every recorded optimization shrank its asset and every
/// optimization was counted as an opportunity.
pub open spec fn report_consistent(r: Report) -> bool {
    r.after_bytes <= r.before_bytes && r.opportunities == r.optimized
}

/// Recording consistent outcomes keeps a report consistent: the totals
/// after optimization never exceed the totals before, and opportunities
/// always equal optimized assets. So the bytes saved are exactly the
/// difference of the totals.
pub proof fn lemma_recording_keeps_report_consistent(r: Report, o: OptimizeOutcome)
    requires
        report_consistent(r),
        outcome_consistent(o),
        fits(r, o),
    ensures
        report_consistent(recorded(r, o)),
        recorded(r, o).before_bytes - recorded(r, o).after_bytes >= r.before_bytes - r.after_bytes,
{
}

/// The outcome of an optimization that produced `optimized`, and the bytes
/// to write over the file: written only when strictly smaller and not a dry
/// run.
pub fn replace_with(optimized: Vec<u8>, before: u64, dry_run: bool) -> (r: (OptimizeOutcome, Option<Vec<u8>>))
    ensures
        optimized@.len() >= before ==> r.0 == (OptimizeOutcome::Unchanged { size: before }) && r.1 is None,
        optimized@.len() < before ==> r.0 == (OptimizeOutcome::Optimized {
            before,
            after: optimized@.len() as u64,
        }),
        optimized@.len() < before && !dry_run ==> (r.1 matches Some(b) && b@ == optimized@),
        optimized@.len() < before && dry_run ==> r.1 is None,
        written(r.1) == write_of(Ok::<Seq<u8>, Seq<char>>(optimized@), before as int, dry_run),
{
    let (outcome, write) = maybe_replace(optimized.as_slice(), before, dry_run);
    if write {
        (outcome, Some(optimized))
    } else {
        (outcome, None)
    }
}

/// The outcome of a backend run that gave `result`: its error makes a
/// failure; its output is kept when strictly smaller.
pub fn outcome_of(result: Result<Vec<u8>, String>, before: u64, dry_run: bool) -> (r: (OptimizeOutcome, Option<Vec<u8>>))
    ensures
        written(r.1) == write_of(result_bytes(result), before as int, dry_run),
        match result {
            Err(e) => (r.0 matches OptimizeOutcome::Failed { error } && error@ == e@) && r.1 is None,
            Ok(out) => {
                &&& out@.len() >= before ==> r.0 == (OptimizeOutcome::Unchanged { size: before }) && r.1 is None
                &&& out@.len() < before ==> r.0 == (OptimizeOutcome::Optimized {
                    before,
                    after: out@.len() as u64,
                })
                &&& out@.len() < before && !dry_run ==> (r.1 matches Some(b) && b@ == out@)
                &&& out@.len() < before && dry_run ==> r.1 is None
            },
        },
{
    match result {
        Err(e) => (OptimizeOutcome::Failed { error: e }, None),
        Ok(out) => replace_with(out, before, dry_run),
    }
}

/// Lossless WebP optimization of the file contents `original`: the
/// container is rewritten without the metadata the policy strips; a file
/// that cannot be rewritten is skipped with the reason.
pub fn optimize_webp_lossless(original: &[u8], strip: StripPolicy, dry_run: bool) -> (r: (OptimizeOutcome, Option<Vec<u8>>))
    ensures
        written(r.1) == write_of(optimized_webp(original@, strip), original@.len() as int, dry_run),
        match optimized_webp(original@, strip) {
            Err(e) => (r.0 matches OptimizeOutcome::Skipped { reason, size } && reason@ == webp_error_text(e) && size
                == original@.len()) && r.1 is None,
            Ok(out) => {
                &&& out.len() >= original@.len() ==> r.0 == (OptimizeOutcome::Unchanged {
                    size: original@.len() as u64,
                }) && r.1 is None
                &&& out.len() < original@.len() ==> r.0 == (OptimizeOutcome::Optimized {
                    before: original@.len() as u64,
                    after: out.len() as u64,
                })
                &&& out.len() < original@.len() && !dry_run ==> (r.1 matches Some(b) && b@ == out)
                &&& out.len() < original@.len() && dry_run ==> r.1 is None
            },
        },
{
    let before = original.len() as u64;
    match optimize_webp_container(original, &strip) {
        Ok(out) => replace_with(out, before, dry_run),
        Err(e) => {
            let reason = e.message();
            (skipped_with_size(before, reason.as_str()), None)
        },
    }
}

/// Why a lossy WebP re-encoding is skipped, if it is: animations are not
/// re-encoded, and the `dwebp` and `cwebp` tools must both be available.
pub fn webp_lossy_skip_reason(original: &[u8], has_tools: bool) -> (r: Option<&'static str>)
    ensures
        webp_is_animated(original@) ==> (r matches Some(t) && t@ == "animated WebP lossy re-encoding is not supported"@),
        !webp_is_animated(original@) && !has_tools ==> (r matches Some(t) && t@
            == "lossy WebP requires bundled cwebp and dwebp"@),
        !webp_is_animated(original@) && has_tools ==> r is None,
{
    if webp_has_animation(original) {
        return Some("animated WebP lossy re-encoding is not supported");
    }
    if !has_tools {
        return Some("lossy WebP requires bundled cwebp and dwebp");
    }
    None
}

/// The bytes a lossy JPEG re-encoding ends with: the encoder's output,
/// with the original's metadata copied in under the keep policy, the same
/// without EXIF and XMP (APP1) under the safe policy, and none when
/// everything is stripped.
pub open spec fn lossy_jpeg_result(original: Seq<u8>, encoded: Seq<u8>, strip: StripPolicy) -> Result<
    Seq<u8>,
    Seq<char>,
> {
    let copied = match strip {
        StripPolicy::Keep => with_copied_metadata(original, encoded),
        StripPolicy::Safe => with_copied_metadata_except_exif(original, encoded),
        StripPolicy::All => Ok(encoded),
    };
    match copied {
        Ok(out) => Ok(out),
        Err(e) => Err(jpeg_error_text(e)),
    }
}

/// Finishes a lossy JPEG re-encoding of `original` into `encoded`: copies
/// the metadata the policy keeps, then keeps the result when strictly
/// smaller than the original.
pub fn finish_jpeg_lossy(original: &[u8], encoded: &[u8], strip: StripPolicy, dry_run: bool) -> (r: (
    OptimizeOutcome,
    Option<Vec<u8>>,
))
    ensures
        written(r.1) == write_of(lossy_jpeg_result(original@, encoded@, strip), original@.len() as int, dry_run),
        match lossy_jpeg_result(original@, encoded@, strip) {
            Err(e) => (r.0 matches OptimizeOutcome::Failed { error } && error@ == e) && r.1 is None,
            Ok(out) => {
                &&& out.len() >= original@.len() ==> r.0 == (OptimizeOutcome::Unchanged {
                    size: original@.len() as u64,
                }) && r.1 is None
                &&& out.len() < original@.len() ==> r.0 == (OptimizeOutcome::Optimized {
                    before: original@.len() as u64,
                    after: out.len() as u64,
                })
                &&& out.len() < original@.len() && !dry_run ==> (r.1 matches Some(b) && b@ == out)
                &&& out.len() < original@.len() && dry_run ==> r.1 is None
            },
        },
{
    let before = original.len() as u64;
    let copied = match strip {
        StripPolicy::Keep => copy_jpeg_metadata(original, encoded),
        StripPolicy::Safe => copy_jpeg_metadata_except_exif(original, encoded),
        StripPolicy::All => Ok(vstd::slice::slice_to_vec(encoded)),
    };
    let result = match copied {
        Ok(out) => Ok(out),
        Err(e) => Err(e.message()),
    };
    outcome_of(result, before, dry_run)
}

/// A discovered asset and its kind.
#[derive(Debug)]
pub struct Asset {
    pub path: String,
    pub kind: AssetKind,
}

/// Is kind `k` processed under the `--format` filters `filters`?
pub open spec fn format_selected(k: AssetKind, filters: Seq<FormatFilter>) -> bool {
    filters.len() == 0 || exists|i: int| 0 <= i < filters.len() && filter_selects(filters[i], k)
}

/// The paths, in order, whose kind the filters select.
pub open spec fn selected_paths(paths: Seq<Seq<char>>, filters: Seq<FormatFilter>) -> Seq<Seq<char>>
    decreases paths.len(),
{
    if paths.len() == 0 {
        Seq::empty()
    } else {
        let rest = selected_paths(paths.drop_last(), filters);
        if format_selected(asset_kind(paths.last()), filters) {
            rest.push(paths.last())
        } else {
            rest
        }
    }
}

/// The assets among `paths` that the `--format` filters select, in order,
/// each with its kind.
pub fn select_assets(paths: &[String], filters: &[FormatFilter]) -> (r: Vec<Asset>)
    ensures
        r@.map_values(|a: Asset| a.path@) == selected_paths(paths@.map_values(|p: String| p@), filters@),
        forall|i: int| 0 <= i < r@.len() ==> (#[trigger] r@[i]).kind == asset_kind(r@[i].path@),
{
    let ghost views = paths@.map_values(|p: String| p@);
    let mut r: Vec<Asset> = Vec::new();
    let mut i: usize = 0;
    assert(views.take(0) =~= Seq::<Seq<char>>::empty());
    while i < paths.len()
        invariant
            i <= paths@.len(),
            views == paths@.map_values(|p: String| p@),
            r@.map_values(|a: Asset| a.path@) == selected_paths(views.take(i as int), filters@),
            forall|j: int| 0 <= j < r@.len() ==> (#[trigger] r@[j]).kind == asset_kind(r@[j].path@),
        decreases paths@.len() - i,
    {
        assert(views.take(i + 1).drop_last() =~= views.take(i as int));
        assert(views.take(i + 1).last() == paths@[i as int]@);
        let kind = crate::path::classify_asset(paths[i].as_str());
        if should_process_format(kind, filters) {
            let ghost before = r@;
            let path = paths[i].clone();
            r.push(Asset { path, kind });
            assert(r@.map_values(|a: Asset| a.path@) =~= before.map_values(|a: Asset| a.path@).push(paths@[i as int]@));
        }
        i = i + 1;
    }
    assert(views.take(paths@.len() as int) =~= views);
    r
}

/// Which notes precede the processing of a run's assets.
#[derive(Debug, Clone, Copy, PartialEq, Eq, Structural)]
pub struct RunNotes {
    /// The lossy JPEG tools are named (JPEG assets, lossy quality).
    pub jpeg_lossy_backend: bool,
    /// The lossless JPEG tool is named (JPEG assets, no lossy quality).
    pub jpeg_lossless_backend: bool,
    /// The lossy WebP tools are named (WebP assets, lossy quality).
    pub webp_lossy_backend: bool,
    /// The lossy quality and its warning are shown.
    pub lossy_warning: bool,
    /// PNG and SVG assets are said to stay lossless (lossy quality, and
    /// such assets present).
    pub lossless_kept: bool,
    /// The SVG optimizer is named (SVG assets present).
    pub svg_backend: bool,
}

/// Does some asset have kind `k`?
pub open spec fn has_kind(assets: Seq<Asset>, k: AssetKind) -> bool {
    exists|i: int| 0 <= i < assets.len() && assets[i].kind == k
}

/// Does some asset have kind `k`?
fn any_kind(assets: &[Asset], k: AssetKind) -> (b: bool)
    ensures
        b == has_kind(assets@, k),
{
    let mut i: usize = 0;
    while i < assets.len()
        invariant
            i <= assets@.len(),
            forall|j: int| 0 <= j < i ==> assets@[j].kind != k,
        decreases assets@.len() - i,
    {
        if assets[i].kind == k {
            return true;
        }
        i = i + 1;
    }
    false
}

/// The notes shown before a run over `assets` with the given lossy quality.
pub fn run_notes(assets: &[Asset], quality: Option<u8>) -> (n: RunNotes)
    ensures
        n.jpeg_lossy_backend == (has_kind(assets@, AssetKind::Jpeg) && quality is Some),
        n.jpeg_lossless_backend == (has_kind(assets@, AssetKind::Jpeg) && quality is None),
        n.webp_lossy_backend == (has_kind(assets@, AssetKind::Webp) && quality is Some),
        n.lossy_warning == quality is Some,
        n.lossless_kept == (quality is Some && (has_kind(assets@, AssetKind::Png) || has_kind(
            assets@,
            AssetKind::Svg,
        ))),
        n.svg_backend == has_kind(assets@, AssetKind::Svg),
{
    let jpeg = any_kind(assets, AssetKind::Jpeg);
    let webp = any_kind(assets, AssetKind::Webp);
    let png = any_kind(assets, AssetKind::Png);
    let svg = any_kind(assets, AssetKind::Svg);
    let lossy = quality.is_some();
    RunNotes {
        jpeg_lossy_backend: jpeg && lossy,
        jpeg_lossless_backend: jpeg && !lossy,
        webp_lossy_backend: webp && lossy,
        lossy_warning: lossy,
        lossless_kept: lossy && (png || svg),
        svg_backend: svg,
    }
}

/// Without `--format` filters every discovered asset is processed, in
/// order.
pub proof fn lemma_no_filter_selects_all(paths: Seq<Seq<char>>)
    ensures
        selected_paths(paths, Seq::empty()) == paths,
    decreases paths.len(),
{
    if paths.len() > 0 {
        lemma_no_filter_selects_all(paths.drop_last());
        assert(paths.drop_last().push(paths.last()) =~= paths);
    }
}

/// The report after recording the outcomes `os` in order.
pub open spec fn recorded_all(r: Report, os: Seq<OptimizeOutcome>) -> Report
    decreases os.len(),
{
    if os.len() == 0 {
        r
    } else {
        recorded(recorded_all(r, os.drop_last()), os.last())
    }
}

/// Recording the outcomes `os` in order overflows no counter.
pub open spec fn fits_all(r: Report, os: Seq<OptimizeOutcome>) -> bool
    decreases os.len(),
{
    if os.len() == 0 {
        true
    } else {
        fits_all(r, os.drop_last()) && fits(recorded_all(r, os.drop_last()), os.last())
    }
}

proof fn lemma_fits_all_prefix(r: Report, os: Seq<OptimizeOutcome>, n: int)
    requires
        fits_all(r, os),
        0 <= n <= os.len(),
    ensures
        fits_all(r, os.take(n)),
    decreases os.len(),
{
    if n == os.len() {
        assert(os.take(n) =~= os);
    } else {
        assert(os.drop_last().take(n) =~= os.take(n));
        lemma_fits_all_prefix(r, os.drop_last(), n);
    }
}

/// Whether a run with these outcomes ends in an error: with `--check`
/// when some asset was optimized, and in any case when some asset failed.
pub open spec fn run_fails(os: Seq<OptimizeOutcome>, check: bool) -> bool {
    (check && exists|i: int| 0 <= i < os.len() && os[i] is Optimized) || exists|i: int|
        0 <= i < os.len() && os[i] is Failed
}

/// A report built from an empty one has optimizations, or failures, on
/// record exactly when some recorded outcome is of that kind.
proof fn lemma_recorded_all_counts(os: Seq<OptimizeOutcome>)
    requires
        fits_all(Report::new_spec(), os),
    ensures
        (recorded_all(Report::new_spec(), os).opportunities > 0) == exists|i: int| 0 <= i < os.len() && os[i] is Optimized,
        (recorded_all(Report::new_spec(), os).failed > 0) == exists|i: int| 0 <= i < os.len() && os[i] is Failed,
    decreases os.len(),
{
    if os.len() > 0 {
        let init = os.drop_last();
        lemma_recorded_all_counts(init);
        assert forall|i: int| 0 <= i < init.len() implies init[i] == os[i] by {}
        if exists|i: int| 0 <= i < os.len() && os[i] is Optimized {
            let i = choose|i: int| 0 <= i < os.len() && os[i] is Optimized;
            if i < init.len() {
                assert(init[i] is Optimized);
            }
        }
        if exists|i: int| 0 <= i < os.len() && os[i] is Failed {
            let i = choose|i: int| 0 <= i < os.len() && os[i] is Failed;
            if i < init.len() {
                assert(init[i] is Failed);
            }
        }
        if exists|i: int| 0 <= i < init.len() && init[i] is Optimized {
            let i = choose|i: int| 0 <= i < init.len() && init[i] is Optimized;
            assert(os[i] is Optimized);
        }
        if exists|i: int| 0 <= i < init.len() && init[i] is Failed {
            let i = choose|i: int| 0 <= i < init.len() && init[i] is Failed;
            assert(os[i] is Failed);
        }
        assert(os[os.len() - 1] == os.last());
    }
}

/// A whole run ends in an error exactly when, with `--check`, some asset
/// could be optimized, or when some asset failed: the verdict of the
/// report that records every outcome of the run, from an empty one.
pub proof fn lemma_run_verdict(os: Seq<OptimizeOutcome>, check: bool)
    requires
        fits_all(Report::new_spec(), os),
    ensures
        ((check && recorded_all(Report::new_spec(), os).opportunities > 0) || recorded_all(
            Report::new_spec(),
            os,
        ).failed > 0) == run_fails(os, check),
{
    lemma_recorded_all_counts(os);
}

/// Recording a run's consistent outcomes keeps a consistent report
/// consistent.
pub proof fn lemma_run_keeps_report_consistent(r: Report, os: Seq<OptimizeOutcome>)
    requires
        report_consistent(r),
        fits_all(r, os),
        forall|i: int| 0 <= i < os.len() ==> outcome_consistent(#[trigger] os[i]),
    ensures
        report_consistent(recorded_all(r, os)),
    decreases os.len(),
{
    if os.len() > 0 {
        let init = os.drop_last();
        assert forall|i: int| 0 <= i < init.len() implies outcome_consistent(#[trigger] init[i]) by {
            assert(init[i] == os[i]);
        }
        lemma_run_keeps_report_consistent(r, init);
        assert(outcome_consistent(os[os.len() - 1]));
        lemma_recording_keeps_report_consistent(recorded_all(r, init), os.last());
    }
}

/// Over a whole run, with `outputs[i]` the backend result for an asset of
/// `sizes[i]` bytes: on a dry run nothing is written; otherwise an asset is
/// written over exactly when its backend gave an output strictly smaller
/// than it, and then with that output.
pub proof fn lemma_run_writes<E>(outputs: Seq<Result<Seq<u8>, E>>, sizes: Seq<int>, dry_run: bool)
    requires
        outputs.len() == sizes.len(),
    ensures
        dry_run ==> forall|i: int| 0 <= i < outputs.len() ==> #[trigger] write_of(outputs[i], sizes[i], dry_run) is None,
        forall|i: int|
            0 <= i < outputs.len() ==> (#[trigger] write_of(outputs[i], sizes[i], dry_run) matches Some(b) ==> (
            outputs[i] matches Ok(out) && out == b && b.len() < sizes[i])),
        !dry_run ==> forall|i: int|
            0 <= i < outputs.len() && (outputs[i] matches Ok(out) && out.len() < sizes[i]) ==> #[trigger] write_of(
                outputs[i],
                sizes[i],
                dry_run,
            ) is Some,
{
}

/// PNG, JPEG, WebP and SVG assets go to their optimizers; GIF assets are
/// skipped as not implemented, BMP and WBMP ones kept as they are, and any
/// other file skipped as unsupported.
pub proof fn lemma_skipped_kinds(k: AssetKind)
    ensures
        (k == AssetKind::Png || k == AssetKind::Jpeg || k == AssetKind::Webp || k == AssetKind::Svg) <==> skip_reason(
            k,
        ) is None,
        k == AssetKind::Gif ==> skip_reason(k) == Some("GIF backend is not implemented yet"@),
        (k == AssetKind::Bmp || k == AssetKind::Wbmp) ==> skip_reason(k) == Some(
            "BMP/WBMP are kept as-is because meaningful savings require conversion"@,
        ),
        k == AssetKind::Other ==> skip_reason(k) == Some("unsupported file type"@),
{
}

} // verus!
