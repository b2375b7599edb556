//! The run of one document, as a state machine.
//!
//! A run resolves the cache directory, counts pages, inspects the cache, and then
//! either replays the cached pages or clears the cache and renders every page,
//! delivering each page as soon as it is ready. The host performs each
//! [`Action`] and answers with the [`Event`] it produced; pages are handled one
//! at a time, so deliveries come in ascending page order. Any failure ends the
//! run; pages already rendered stay on disk.
use vstd::prelude::*;
use crate::cache::{cache_status, listing_view, stale_paths, inspect_cache, stale_files, CacheStatus};
use crate::error::Error;
use crate::paths::{data_dir_of, has_file_name, page_path, data_dir_chars, page_path_chars};
use crate::rasterizer::{magick_args, page_selector, views, create_magick_args, page_selector_string};
use crate::text::{chars_of, string_of};

verus! {

/// Where a run stands. Page indices are 0-based; page numbers are 1-based.
#[derive(Debug, Clone, Copy, PartialEq, Eq)]
pub enum Stage {
    /// Waiting for the document's page count.
    Counting,
    /// Waiting for the cache directory's listing.
    Inspecting { pages: usize },
    /// Waiting for the cache directory to be created or cleared.
    Preparing { pages: usize },
    /// Waiting for the rasterizer to finish page `index`.
    Rendering { pages: usize, index: usize },
    /// Waiting for page `index` to be delivered; `replay` when it came from the cache.
    Delivering { pages: usize, index: usize, replay: bool },
    /// Every page was delivered.
    Done { pages: usize },
    /// The run ended with an error.
    Failed,
}

/// What the host reports after performing an action.
#[derive(Debug, PartialEq, Eq)]
pub enum Event {
    /// The document was parsed and has this many pages.
    Counted(usize),
    /// The document could not be parsed as a PDF.
    Unparsed,
    /// The names of the files in the cache directory; `None` when it does not exist.
    Listed(Option<Vec<String>>),
    /// The cache directory was created, or its stale page images removed.
    Prepared,
    /// The rasterizer reported success.
    Rendered,
    /// The rasterizer ended with a non-success status.
    RenderFailed { code: i32, stderr: String },
    /// The page image was read and handed to the subscriber.
    Delivered,
    /// The file operation, or starting the rasterizer, failed.
    IoFailed(String),
}

/// What the host is asked to do next.
#[derive(Debug, PartialEq, Eq)]
pub enum Action {
    /// Open the document and count its pages.
    CountPages { path: String },
    /// List the names of the files in the cache directory, if it exists.
    ListCache { dir: String },
    /// Create the cache directory.
    CreateCache { dir: String },
    /// Remove these files.
    RemoveFiles { paths: Vec<String> },
    /// Run the rasterizer with these arguments for page `index`.
    Render { index: usize, args: Vec<String> },
    /// Read this page image and deliver it as page `page_number`.
    Deliver { page_number: usize, path: String },
    /// The run is complete.
    Finish,
    /// The run stops with this error.
    Abort(Error),
}

/// An action with its strings seen as characters.
pub enum Move {
    CountPages(Seq<char>),
    ListCache(Seq<char>),
    CreateCache(Seq<char>),
    RemoveFiles(Seq<Seq<char>>),
    Render { index: nat, args: Seq<Seq<char>> },
    Deliver { page_number: nat, path: Seq<char> },
    Finish,
    Abort(Error),
}

impl View for Action {
    type V = Move;

    open spec fn view(&self) -> Move {
        match self {
            Action::CountPages { path } => Move::CountPages(path@),
            Action::ListCache { dir } => Move::ListCache(dir@),
            Action::CreateCache { dir } => Move::CreateCache(dir@),
            Action::RemoveFiles { paths } => Move::RemoveFiles(views(paths@)),
            Action::Render { index, args } => Move::Render { index: *index as nat, args: views(args@) },
            Action::Deliver { page_number, path } => Move::Deliver {
                page_number: *page_number as nat,
                path: path@,
            },
            Action::Finish => Move::Finish,
            Action::Abort(e) => Move::Abort(*e),
        }
    }
}

/// An event with the document parsed and the listing seen as characters.
pub enum Outcome {
    Counted(usize),
    Unparsed,
    Listed(Option<Seq<Seq<char>>>),
    Prepared,
    Rendered,
    RenderFailed(i32, String),
    Delivered,
    IoFailed(String),
}

pub open spec fn outcome(ev: Event) -> Outcome {
    match ev {
        Event::Counted(n) => Outcome::Counted(n),
        Event::Unparsed => Outcome::Unparsed,
        Event::Listed(l) => Outcome::Listed(listing_view(l)),
        Event::Prepared => Outcome::Prepared,
        Event::Rendered => Outcome::Rendered,
        Event::RenderFailed { code, stderr } => Outcome::RenderFailed(code, stderr),
        Event::Delivered => Outcome::Delivered,
        Event::IoFailed(m) => Outcome::IoFailed(m),
    }
}

/// Whether a stage waits for this kind of outcome. A finished run waits for none.
pub open spec fn fits(s: Stage, o: Outcome) -> bool {
    match s {
        Stage::Counting => o is Counted || o is Unparsed || o is IoFailed,
        Stage::Inspecting { .. } => o is Listed || o is IoFailed,
        Stage::Preparing { .. } => o is Prepared || o is IoFailed,
        Stage::Rendering { .. } => o is Rendered || o is RenderFailed || o is IoFailed,
        Stage::Delivering { .. } => o is Delivered || o is IoFailed,
        Stage::Done { .. } => false,
        Stage::Failed => false,
    }
}

/// Whether a stage waits for this kind of event.
pub open spec fn accepts(s: Stage, ev: Event) -> bool {
    match s {
        Stage::Counting => ev is Counted || ev is Unparsed || ev is IoFailed,
        Stage::Inspecting { .. } => ev is Listed || ev is IoFailed,
        Stage::Preparing { .. } => ev is Prepared || ev is IoFailed,
        Stage::Rendering { .. } => ev is Rendered || ev is RenderFailed || ev is IoFailed,
        Stage::Delivering { .. } => ev is Delivered || ev is IoFailed,
        Stage::Done { .. } => false,
        Stage::Failed => false,
    }
}

/// A stage that is waiting on a page points at one of the document's pages.
pub open spec fn stage_wf(s: Stage) -> bool {
    match s {
        Stage::Rendering { pages, index } => index < pages,
        Stage::Delivering { pages, index, .. } => index < pages,
        _ => true,
    }
}

/// Rasterize page `index` of `source` into its file in `dir`.
pub open spec fn render_move(source: Seq<char>, dir: Seq<char>, index: nat) -> Move {
    Move::Render {
        index,
        args: magick_args(page_selector(source, index), page_path(dir, index + 1)),
    }
}

/// Deliver page `index` from its file in `dir`.
pub open spec fn deliver_move(dir: Seq<char>, index: nat) -> Move {
    Move::Deliver { page_number: index + 1, path: page_path(dir, index + 1) }
}

/// Render from the first page, or finish at once when there is none.
pub open spec fn begin_render(source: Seq<char>, dir: Seq<char>, pages: usize) -> (Stage, Move) {
    if pages == 0 {
        (Stage::Done { pages }, Move::Finish)
    } else {
        (Stage::Rendering { pages, index: 0 }, render_move(source, dir, 0))
    }
}

/// The next stage and move of a run of `source` with cache directory `dir`.
pub open spec fn transition(source: Seq<char>, dir: Seq<char>, s: Stage, o: Outcome) -> (Stage, Move) {
    match o {
        Outcome::IoFailed(m) => (Stage::Failed, Move::Abort(Error::Io { message: m })),
        Outcome::Unparsed => (Stage::Failed, Move::Abort(Error::DocumentLoad)),
        Outcome::RenderFailed(code, stderr) => (
            Stage::Failed,
            Move::Abort(Error::ExternalTool { code, stderr }),
        ),
        Outcome::Counted(pages) => (Stage::Inspecting { pages }, Move::ListCache(dir)),
        Outcome::Listed(l) => {
            let pages = match s {
                Stage::Inspecting { pages } => pages,
                _ => 0,
            };
            match cache_status(l, pages as nat) {
                CacheStatus::Absent => (Stage::Preparing { pages }, Move::CreateCache(dir)),
                CacheStatus::Mismatched(_) => (
                    Stage::Preparing { pages },
                    Move::RemoveFiles(stale_paths(dir, l->0)),
                ),
                CacheStatus::Complete => if pages == 0 {
                    (Stage::Done { pages }, Move::Finish)
                } else {
                    (Stage::Delivering { pages, index: 0, replay: true }, deliver_move(dir, 0))
                },
            }
        },
        Outcome::Prepared => match s {
            Stage::Preparing { pages } => begin_render(source, dir, pages),
            _ => (s, Move::Finish),
        },
        Outcome::Rendered => match s {
            Stage::Rendering { pages, index } => (
                Stage::Delivering { pages, index, replay: false },
                deliver_move(dir, index as nat),
            ),
            _ => (s, Move::Finish),
        },
        Outcome::Delivered => match s {
            Stage::Delivering { pages, index, replay } => if index + 1 >= pages {
                (Stage::Done { pages }, Move::Finish)
            } else if replay {
                (
                    Stage::Delivering { pages, index: (index + 1) as usize, replay: true },
                    deliver_move(dir, (index + 1) as nat),
                )
            } else {
                (
                    Stage::Rendering { pages, index: (index + 1) as usize },
                    render_move(source, dir, (index + 1) as nat),
                )
            },
            _ => (s, Move::Finish),
        },
    }
}

/// One run of the pipeline on one document.
pub struct Pipeline {
    /// The document's path.
    pub source: String,
    /// The document's cache directory.
    pub data_dir: String,
    pub stage: Stage,
}

impl Pipeline {
    pub open spec fn wf(&self) -> bool {
        &&& self.data_dir@ == data_dir_of(self.source@)
        &&& stage_wf(self.stage)
    }

    /// Starts a run on the document at `path`: its cache directory is resolved and
    /// the host is asked for the document's page count.
    pub fn start(path: &str) -> (r: Result<(Pipeline, Action), Error>)
        ensures
            match r {
                Ok((p, a)) => {
                    &&& has_file_name(path@)
                    &&& p.wf()
                    &&& p.source@ == path@
                    &&& p.stage == Stage::Counting
                    &&& a@ == Move::CountPages(path@)
                },
                Err(e) => !has_file_name(path@) && e == Error::InvalidPath,
            },
    {
        let p = chars_of(path);
        let dir = data_dir_chars(&p)?;
        let pipeline = Pipeline {
            source: path.to_owned(),
            data_dir: string_of(&dir),
            stage: Stage::Counting,
        };
        Ok((pipeline, Action::CountPages { path: path.to_owned() }))
    }

    fn render_action(&self, index: usize) -> (r: Action)
        requires
            index < usize::MAX,
        ensures
            r@ == render_move(self.source@, self.data_dir@, index as nat),
    {
        let dir = chars_of(self.data_dir.as_str());
        let output = string_of(&page_path_chars(&dir, index + 1));
        let input = page_selector_string(self.source.as_str(), index);
        let args = create_magick_args(input.as_str(), output.as_str());
        Action::Render { index, args }
    }

    fn deliver_action(&self, index: usize) -> (r: Action)
        requires
            index < usize::MAX,
        ensures
            r@ == deliver_move(self.data_dir@, index as nat),
    {
        let dir = chars_of(self.data_dir.as_str());
        let path = string_of(&page_path_chars(&dir, index + 1));
        Action::Deliver { page_number: index + 1, path }
    }

    /// Advances the run by the event that the last action produced, and returns
    /// the next action.
    pub fn step(&mut self, ev: Event) -> (r: Action)
        requires
            old(self).wf(),
            accepts(old(self).stage, ev),
        ensures
            final(self).wf(),
            final(self).source == old(self).source,
            final(self).data_dir == old(self).data_dir,
            fits(old(self).stage, outcome(ev)),
            (final(self).stage, r@) == transition(
                old(self).source@,
                old(self).data_dir@,
                old(self).stage,
                outcome(ev),
            ),
    {
        match ev {
            Event::IoFailed(message) => {
                self.stage = Stage::Failed;
                Action::Abort(Error::Io { message })
            },
            Event::RenderFailed { code, stderr } => {
                self.stage = Stage::Failed;
                Action::Abort(Error::ExternalTool { code, stderr })
            },
            Event::Counted(pages) => {
                self.stage = Stage::Inspecting { pages };
                Action::ListCache { dir: self.data_dir.clone() }
            },
            Event::Unparsed => {
                self.stage = Stage::Failed;
                Action::Abort(Error::DocumentLoad)
            },
            Event::Listed(listing) => {
                let pages = match self.stage {
                    Stage::Inspecting { pages } => pages,
                    _ => 0,
                };
                match inspect_cache(&listing, pages) {
                    CacheStatus::Absent => {
                        self.stage = Stage::Preparing { pages };
                        Action::CreateCache { dir: self.data_dir.clone() }
                    },
                    CacheStatus::Mismatched(_) => {
                        self.stage = Stage::Preparing { pages };
                        // A listing exists here: a missing directory is `Absent`.
                        match &listing {
                            Some(names) => Action::RemoveFiles {
                                paths: stale_files(self.data_dir.as_str(), names),
                            },
                            None => Action::Finish,
                        }
                    },
                    CacheStatus::Complete => {
                        if pages == 0 {
                            self.stage = Stage::Done { pages };
                            Action::Finish
                        } else {
                            self.stage = Stage::Delivering { pages, index: 0, replay: true };
                            self.deliver_action(0)
                        }
                    },
                }
            },
            Event::Prepared => {
                let pages = match self.stage {
                    Stage::Preparing { pages } => pages,
                    _ => 0,
                };
                if pages == 0 {
                    self.stage = Stage::Done { pages };
                    Action::Finish
                } else {
                    self.stage = Stage::Rendering { pages, index: 0 };
                    self.render_action(0)
                }
            },
            Event::Rendered => {
                let (pages, index) = match self.stage {
                    Stage::Rendering { pages, index } => (pages, index),
                    _ => (1, 0),
                };
                self.stage = Stage::Delivering { pages, index, replay: false };
                self.deliver_action(index)
            },
            Event::Delivered => {
                let (pages, index, replay) = match self.stage {
                    Stage::Delivering { pages, index, replay } => (pages, index, replay),
                    _ => (1, 0, false),
                };
                if index + 1 >= pages {
                    self.stage = Stage::Done { pages };
                    Action::Finish
                } else if replay {
                    self.stage = Stage::Delivering { pages, index: index + 1, replay: true };
                    self.deliver_action(index + 1)
                } else {
                    self.stage = Stage::Rendering { pages, index: index + 1 };
                    self.render_action(index + 1)
                }
            },
        }
    }
}

} // verus!
