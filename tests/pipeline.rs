use document_processor::error::Error;
use document_processor::pipeline::{Action, Event, Pipeline, Stage};

fn last_component(path: &str) -> String {
    path.rsplit('/').next().unwrap().to_string()
}

/// A host whose disk is a list of file names and whose rasterizer writes the
/// requested file, or fails on one chosen page.
struct Host {
    pages: Option<usize>,
    cache: Option<Vec<String>>,
    fail_at: Option<usize>,
    renders: Vec<usize>,
    delivered: Vec<usize>,
}

impl Host {
    fn new(pages: Option<usize>, cache: Option<Vec<&str>>) -> Host {
        Host {
            pages,
            cache: cache.map(|v| v.iter().map(|s| s.to_string()).collect()),
            fail_at: None,
            renders: Vec::new(),
            delivered: Vec::new(),
        }
    }

    fn run(&mut self, path: &str) -> Action {
        let (mut pipeline, mut action) = Pipeline::start(path).unwrap();
        loop {
            let event = match &action {
                Action::CountPages { .. } => match self.pages {
                    Some(n) => Event::Counted(n),
                    None => Event::Unparsed,
                },
                Action::ListCache { .. } => Event::Listed(self.cache.clone()),
                Action::CreateCache { .. } => {
                    self.cache = Some(Vec::new());
                    Event::Prepared
                }
                Action::RemoveFiles { paths } => {
                    let gone: Vec<String> = paths.iter().map(|p| last_component(p)).collect();
                    self.cache.as_mut().unwrap().retain(|n| !gone.contains(n));
                    Event::Prepared
                }
                Action::Render { index, args } => {
                    self.renders.push(*index);
                    if self.fail_at == Some(*index) {
                        Event::RenderFailed { code: 1, stderr: "no delegate".to_string() }
                    } else {
                        let name = last_component(&args[8]);
                        let files = self.cache.as_mut().unwrap();
                        if !files.contains(&name) {
                            files.push(name);
                        }
                        Event::Rendered
                    }
                }
                Action::Deliver { page_number, .. } => {
                    self.delivered.push(*page_number);
                    Event::Delivered
                }
                Action::Finish | Action::Abort(_) => return action,
            };
            action = pipeline.step(event);
        }
    }

    fn sorted_cache(&self) -> Vec<String> {
        let mut v = self.cache.clone().unwrap();
        v.sort();
        v
    }
}

#[test]
fn absent_cache_renders_three_pages_in_order() {
    let mut host = Host::new(Some(3), None);
    assert_eq!(host.run("/docs/report.pdf"), Action::Finish);
    assert_eq!(host.renders, vec![0, 1, 2]);
    assert_eq!(host.delivered, vec![1, 2, 3]);
    assert_eq!(host.sorted_cache(), vec!["1.webp", "2.webp", "3.webp"]);
}

#[test]
fn second_run_replays_the_cache() {
    let mut host = Host::new(Some(3), None);
    host.run("/docs/report.pdf");
    let after_first = host.sorted_cache();
    host.renders.clear();
    host.delivered.clear();
    assert_eq!(host.run("/docs/report.pdf"), Action::Finish);
    assert!(host.renders.is_empty());
    assert_eq!(host.delivered, vec![1, 2, 3]);
    assert_eq!(host.sorted_cache(), after_first);
}

#[test]
fn mismatched_cache_is_cleared_and_rendered_again() {
    let mut host = Host::new(Some(2), Some(vec!["1.webp", "2.webp", "3.webp", "9.webp", "notes.txt"]));
    assert_eq!(host.run("/docs/report.pdf"), Action::Finish);
    assert_eq!(host.renders, vec![0, 1]);
    assert_eq!(host.delivered, vec![1, 2]);
    assert_eq!(host.sorted_cache(), vec!["1.webp", "2.webp", "notes.txt"]);
}

#[test]
fn rasterizer_failure_stops_after_the_earlier_pages() {
    let mut host = Host::new(Some(4), None);
    host.fail_at = Some(2);
    let end = host.run("/docs/report.pdf");
    assert_eq!(end, Action::Abort(Error::ExternalTool { code: 1, stderr: "no delegate".to_string() }));
    assert_eq!(host.renders, vec![0, 1, 2]);
    assert_eq!(host.delivered, vec![1, 2]);
}

#[test]
fn rasterizer_failure_on_the_first_page_delivers_nothing() {
    let mut host = Host::new(Some(2), Some(vec![]));
    host.fail_at = Some(0);
    let end = host.run("/docs/report.pdf");
    assert!(matches!(end, Action::Abort(Error::ExternalTool { code: 1, .. })));
    assert!(host.delivered.is_empty());
}

#[test]
fn unreadable_document_aborts_with_load_error() {
    let mut host = Host::new(None, None);
    assert_eq!(host.run("/docs/report.pdf"), Action::Abort(Error::DocumentLoad));
    assert!(host.renders.is_empty());
}

#[test]
fn empty_document_finishes_without_work() {
    let mut host = Host::new(Some(0), None);
    assert_eq!(host.run("/docs/empty.pdf"), Action::Finish);
    assert!(host.renders.is_empty());
    assert!(host.delivered.is_empty());
}

#[test]
fn actions_name_the_cache_files() {
    let (mut p, first) = Pipeline::start("/docs/report.pdf").unwrap();
    assert_eq!(first, Action::CountPages { path: "/docs/report.pdf".to_string() });
    assert_eq!(p.data_dir, "/docs/report_data");
    let a = p.step(Event::Counted(2));
    assert_eq!(a, Action::ListCache { dir: "/docs/report_data".to_string() });
    let a = p.step(Event::Listed(None));
    assert_eq!(a, Action::CreateCache { dir: "/docs/report_data".to_string() });
    let a = p.step(Event::Prepared);
    let expected: Vec<String> = vec![
        "-density", "150", "/docs/report.pdf[0]", "-resize", "1000x1000", "-scene", "1", "+adjoin",
        "/docs/report_data/1.webp",
    ]
    .into_iter()
    .map(String::from)
    .collect();
    assert_eq!(a, Action::Render { index: 0, args: expected });
    let a = p.step(Event::Rendered);
    assert_eq!(a, Action::Deliver { page_number: 1, path: "/docs/report_data/1.webp".to_string() });
    assert_eq!(p.stage, Stage::Delivering { pages: 2, index: 0, replay: false });
}

#[test]
fn io_failure_aborts_with_its_message() {
    let (mut p, _) = Pipeline::start("/docs/report.pdf").unwrap();
    p.step(Event::Counted(1));
    let a = p.step(Event::IoFailed("permission denied".to_string()));
    assert_eq!(a, Action::Abort(Error::Io { message: "permission denied".to_string() }));
    assert_eq!(p.stage, Stage::Failed);
}

#[test]
fn invalid_path_never_starts() {
    assert!(matches!(Pipeline::start("/docs/"), Err(Error::InvalidPath)));
}

#[test]
fn any_complete_cache_is_replayed_without_rendering() {
    let mut host = Host::new(Some(2), Some(vec!["2.webp", "notes.txt", "1.webp"]));
    assert_eq!(host.run("/docs/report.pdf"), Action::Finish);
    assert!(host.renders.is_empty());
    assert_eq!(host.delivered, vec![1, 2]);
    assert_eq!(host.sorted_cache(), vec!["1.webp", "2.webp", "notes.txt"]);
}
