//! The pipeline orchestrator: output naming, and the stage machine that
//! sequences playlist fetch, key resolution, segment fetch, assembly and the
//! optional remux. Any stage failure goes straight to a terminal outcome; a
//! remux failure alone degrades to a partial success that keeps the
//! concatenated intermediate file and reports its path.

use vstd::prelude::*;

use crate::hls_parser::ParseError;
use crate::segment_io::{KeyError, SegmentError};
use crate::text::{spec_to_lower, to_lower_str};
use crate::util::{extension_str, file_stem_str, spec_extension, spec_file_stem};

verus! {

/// How many segment fetches are in flight at once unless the caller picks
/// another bound.
pub const DEFAULT_CONCURRENT_DOWNLOADS: usize = 4;

/// The events the pipeline emits to its consumer. Progress is carried in
/// permille (0..=1000) of the whole run.
#[derive(Debug)]
pub enum DownloadMessage {
    Log(String),
    Progress(u32),
    Finished(Result<(), String>),
}

/// Whether the requested container format requires a remux of the raw
/// transport stream.
pub open spec fn spec_needs_remux(format: Seq<char>) -> bool {
    spec_to_lower(format) != "ts"@
}

/// The output file name for a requested container: when remuxing, the
/// extension is rewritten to the (lowercased) requested format unless it
/// already matches it case-insensitively; without remuxing the extension is
/// forced to `ts`.
pub open spec fn spec_output_file_name(filename: Seq<char>, format: Seq<char>) -> Seq<char> {
    let fmt = spec_to_lower(format);
    if fmt != "ts"@ {
        let cur = match spec_extension(filename) {
            Some(e) => e,
            None => Seq::empty(),
        };
        if spec_to_lower(cur) == fmt {
            filename
        } else {
            spec_file_stem(filename) + "."@ + fmt
        }
    } else {
        spec_file_stem(filename) + ".ts"@
    }
}

pub fn output_file_name(filename: &str, format: &str) -> (r: String)
    ensures
        r@ == spec_output_file_name(filename@, format@),
{
    let fmt = to_lower_str(format);
    if !crate::text::str_eq(fmt.as_str(), "ts") {
        let cur: &str = match extension_str(filename) {
            Some(e) => e,
            None => "",
        };
        proof {
            reveal_strlit("");
            if spec_extension(filename@) is None {
                assert(cur@ =~= Seq::<char>::empty());
            }
        }
        let cur_lower = to_lower_str(cur);
        if crate::text::str_eq(cur_lower.as_str(), fmt.as_str()) {
            filename.to_owned()
        } else {
            let mut out = file_stem_str(filename).to_owned();
            out.append(".");
            out.append(fmt.as_str());
            proof {
                assert(out@ =~= spec_file_stem(filename@) + "."@ + spec_to_lower(format@));
            }
            out
        }
    } else {
        let mut out = file_stem_str(filename).to_owned();
        out.append(".ts");
        out
    }
}

/// The resolved plan of one run: where the final file goes, whether a remux
/// is required, and the lowercased container format.
#[derive(Debug, Clone)]
pub struct DownloadPlan {
    pub final_output_path: String,
    pub needs_remux: bool,
    pub output_format: String,
}

/// Resolve output naming once, before any work: directory joined with the
/// rewritten file name by a `/` separator.
pub fn make_plan(output_location: &str, output_filename: &str, output_format: &str) -> (r:
    DownloadPlan)
    ensures
        r.needs_remux == spec_needs_remux(output_format@),
        r.output_format@ == spec_to_lower(output_format@),
        r.final_output_path@ == output_location@ + "/"@ + spec_output_file_name(
            output_filename@,
            output_format@,
        ),
{
    let fmt = to_lower_str(output_format);
    let needs_remux = !crate::text::str_eq(fmt.as_str(), "ts");
    let name = output_file_name(output_filename, output_format);
    let mut path = output_location.to_owned();
    path.append("/");
    path.append(name.as_str());
    proof {
        assert(path@ =~= output_location@ + "/"@ + spec_output_file_name(
            output_filename@,
            output_format@,
        ));
    }
    DownloadPlan { final_output_path: path, needs_remux, output_format: fmt }
}

/// A failure of some stage, kept structured; the shell renders it.
#[derive(Debug, Clone, PartialEq)]
pub enum PipelineError {
    /// The playlist URL is not an absolute URL; nothing was attempted.
    InvalidUrl(String),
    Parse(ParseError),
    Key(KeyError),
    Segment(SegmentError),
    Io(String),
}

/// The very first decision of a run: an invalid playlist URL fails before
/// any work is done.
pub fn check_playlist_url(url: &str) -> (r: Result<(), PipelineError>)
    ensures
        r is Ok <==> crate::hls_parser::url_parse_of(url@) is Some,
        r is Err ==> (r matches Err(PipelineError::InvalidUrl(u)) && u@ == url@),
{
    match crate::hls_parser::url_parse(url) {
        Some(_) => Ok(()),
        None => Err(PipelineError::InvalidUrl(url.to_owned())),
    }
}

/// The terminal outcome of a run.
#[derive(Debug, PartialEq)]
pub enum DownloadOutcome {
    /// The requested file stands at this path.
    Success { path: String },
    /// The remux failed; the concatenated intermediate file survives at
    /// this path and is reported to the user (the run does not count as a
    /// failure).
    PartialSuccess { merged_path: String, error: String },
    /// The run failed; the scratch directory is torn down as on every exit.
    Failure { error: PipelineError },
}

#[derive(Clone, Copy, PartialEq, Eq, Structural, Debug)]
pub enum PipelineStage {
    /// Fetching and parsing the playlist.
    FetchingPlaylist,
    /// Downloading the decryption key.
    ResolvingKey,
    /// Downloading, decrypting and persisting the segments.
    FetchingSegments,
    /// Concatenating the persisted segments.
    Assembling,
    /// Remuxing the merged stream into the requested container.
    Remuxing,
    /// Moving the merged stream to its final place.
    Renaming,
    /// Terminal.
    Done,
}

/// What the shell does next.
#[derive(Debug, PartialEq)]
pub enum PipelineAction {
    /// Fetch the key at this URL (with the retry policy of the key
    /// resolver).
    ResolveKey(String),
    /// Fetch, decrypt and persist all segments (bounded concurrency, retry
    /// policy of the segment fetcher).
    FetchSegments,
    /// Concatenate the persisted segments, ascending by index, into the
    /// merged scratch file.
    Assemble,
    /// Remux the merged file into the final output.
    Remux { input: String, output: String },
    /// Move the merged file to the final output.
    Rename { from: String, to: String },
    /// Emit the terminal event; tear down the scratch directory.
    Finish(DownloadOutcome),
}

/// The stage machine of one run. The scratch directory's lifetime is bound
/// to the machine's run by the shell: it is removed on every terminal
/// action.
pub struct Pipeline {
    pub stage: PipelineStage,
    pub plan: DownloadPlan,
    pub merged_path: String,
}

impl Pipeline {
    /// A fresh run: the merged scratch file lives inside the scratch
    /// directory; the first thing fetched is the playlist.
    pub fn new(plan: DownloadPlan, scratch_dir: &str) -> (p: Pipeline)
        ensures
            p.stage is FetchingPlaylist,
            p.plan == plan,
            p.merged_path@ == scratch_dir@ + "/final_merge.ts.tmp"@,
    {
        let mut merged = scratch_dir.to_owned();
        merged.append("/final_merge.ts.tmp");
        Pipeline { stage: PipelineStage::FetchingPlaylist, plan, merged_path: merged }
    }

    /// The playlist arrived (or failed): with an encryption descriptor the
    /// key is resolved next, else the segments are fetched at once; a parse
    /// or transport failure ends the run.
    pub fn on_playlist(&mut self, result: Result<Option<String>, PipelineError>) -> (a:
        PipelineAction)
        requires
            old(self).stage is FetchingPlaylist,
        ensures
            final(self).plan == old(self).plan,
            final(self).merged_path == old(self).merged_path,
            match result {
                Ok(Some(key_url)) => final(self).stage is ResolvingKey && (a
                    matches PipelineAction::ResolveKey(u) && u@ == key_url@),
                Ok(None) => final(self).stage is FetchingSegments && a
                    is FetchSegments,
                Err(e) => final(self).stage is Done && (a matches PipelineAction::Finish(
                    DownloadOutcome::Failure { error },
                ) && error == e),
            },
    {
        match result {
            Ok(Some(key_url)) => {
                self.stage = PipelineStage::ResolvingKey;
                PipelineAction::ResolveKey(key_url)
            },
            Ok(None) => {
                self.stage = PipelineStage::FetchingSegments;
                PipelineAction::FetchSegments
            },
            Err(e) => {
                self.stage = PipelineStage::Done;
                PipelineAction::Finish(DownloadOutcome::Failure { error: e })
            },
        }
    }

    /// The key arrived (or its retries were spent).
    pub fn on_key(&mut self, result: Result<(), KeyError>) -> (a: PipelineAction)
        requires
            old(self).stage is ResolvingKey,
        ensures
            final(self).plan == old(self).plan,
            final(self).merged_path == old(self).merged_path,
            match result {
                Ok(_) => final(self).stage is FetchingSegments && a is FetchSegments,
                Err(e) => final(self).stage is Done && (a matches PipelineAction::Finish(
                    DownloadOutcome::Failure { error: PipelineError::Key(er) },
                ) && er == e),
            },
    {
        match result {
            Ok(_) => {
                self.stage = PipelineStage::FetchingSegments;
                PipelineAction::FetchSegments
            },
            Err(e) => {
                self.stage = PipelineStage::Done;
                PipelineAction::Finish(DownloadOutcome::Failure { error: PipelineError::Key(e) })
            },
        }
    }

    /// The fetch phase closed. On any per-segment failure — retries spent,
    /// terminal status, decryption failure, or a cardinality mismatch — the
    /// whole run fails and no assembly is ever ordered.
    pub fn on_segments(&mut self, result: Result<(), SegmentError>) -> (a: PipelineAction)
        requires
            old(self).stage is FetchingSegments,
        ensures
            final(self).plan == old(self).plan,
            final(self).merged_path == old(self).merged_path,
            match result {
                Ok(_) => final(self).stage is Assembling && a is Assemble,
                Err(e) => final(self).stage is Done && (a matches PipelineAction::Finish(
                    DownloadOutcome::Failure { error: PipelineError::Segment(er) },
                ) && er == e),
            },
            (result is Err) ==> !(a is Assemble),
    {
        match result {
            Ok(_) => {
                self.stage = PipelineStage::Assembling;
                PipelineAction::Assemble
            },
            Err(e) => {
                self.stage = PipelineStage::Done;
                PipelineAction::Finish(
                    DownloadOutcome::Failure { error: PipelineError::Segment(e) },
                )
            },
        }
    }

    /// The merged file is written (or assembly failed): with a remux
    /// required the tool is run, else the merged file is moved to its final
    /// place.
    pub fn on_assembled(&mut self, result: Result<(), String>) -> (a: PipelineAction)
        requires
            old(self).stage is Assembling,
        ensures
            final(self).plan == old(self).plan,
            final(self).merged_path == old(self).merged_path,
            match result {
                Ok(_) => {
                    if old(self).plan.needs_remux {
                        final(self).stage is Remuxing && (a matches PipelineAction::Remux {
                            input,
                            output,
                        } && input@ == old(self).merged_path@ && output@ == old(
                            self,
                        ).plan.final_output_path@)
                    } else {
                        final(self).stage is Renaming && (a matches PipelineAction::Rename {
                            from,
                            to,
                        } && from@ == old(self).merged_path@ && to@ == old(
                            self,
                        ).plan.final_output_path@)
                    }
                },
                Err(t) => final(self).stage is Done && (a matches PipelineAction::Finish(
                    DownloadOutcome::Failure { error: PipelineError::Io(m) },
                ) && m@ == t@),
            },
    {
        match result {
            Ok(_) => {
                if self.plan.needs_remux {
                    self.stage = PipelineStage::Remuxing;
                    PipelineAction::Remux {
                        input: self.merged_path.clone(),
                        output: self.plan.final_output_path.clone(),
                    }
                } else {
                    self.stage = PipelineStage::Renaming;
                    PipelineAction::Rename {
                        from: self.merged_path.clone(),
                        to: self.plan.final_output_path.clone(),
                    }
                }
            },
            Err(t) => {
                self.stage = PipelineStage::Done;
                PipelineAction::Finish(DownloadOutcome::Failure { error: PipelineError::Io(t) })
            },
        }
    }

    /// The remux finished. Failure here is the one non-fatal degradation:
    /// the merged intermediate file is kept and its path reported, so the
    /// user retains a usable (unconverted) artifact; no final-format file
    /// exists.
    pub fn on_remux(&mut self, result: Result<(), String>) -> (a: PipelineAction)
        requires
            old(self).stage is Remuxing,
        ensures
            final(self).plan == old(self).plan,
            final(self).merged_path == old(self).merged_path,
            match result {
                Ok(_) => final(self).stage is Done && (a matches PipelineAction::Finish(
                    DownloadOutcome::Success { path },
                ) && path@ == old(self).plan.final_output_path@),
                Err(t) => final(self).stage is Done && (a matches PipelineAction::Finish(
                    DownloadOutcome::PartialSuccess { merged_path, error },
                ) && merged_path@ == old(self).merged_path@ && error@ == t@),
            },
            !(a matches PipelineAction::Finish(DownloadOutcome::Failure { error })),
    {
        match result {
            Ok(_) => {
                self.stage = PipelineStage::Done;
                PipelineAction::Finish(
                    DownloadOutcome::Success { path: self.plan.final_output_path.clone() },
                )
            },
            Err(t) => {
                self.stage = PipelineStage::Done;
                PipelineAction::Finish(
                    DownloadOutcome::PartialSuccess {
                        merged_path: self.merged_path.clone(),
                        error: t,
                    },
                )
            },
        }
    }

    /// The merged file was moved (or the move failed).
    pub fn on_renamed(&mut self, result: Result<(), String>) -> (a: PipelineAction)
        requires
            old(self).stage is Renaming,
        ensures
            final(self).plan == old(self).plan,
            final(self).merged_path == old(self).merged_path,
            match result {
                Ok(_) => final(self).stage is Done && (a matches PipelineAction::Finish(
                    DownloadOutcome::Success { path },
                ) && path@ == old(self).plan.final_output_path@),
                Err(t) => final(self).stage is Done && (a matches PipelineAction::Finish(
                    DownloadOutcome::Failure { error: PipelineError::Io(m) },
                ) && m@ == t@),
            },
    {
        match result {
            Ok(_) => {
                self.stage = PipelineStage::Done;
                PipelineAction::Finish(
                    DownloadOutcome::Success { path: self.plan.final_output_path.clone() },
                )
            },
            Err(t) => {
                self.stage = PipelineStage::Done;
                PipelineAction::Finish(DownloadOutcome::Failure { error: PipelineError::Io(t) })
            },
        }
    }
}

} // verus!
