//! The per-commit diff reader: a state machine from unified-diff text to the
//! content lines to match and the files to capture.
use vstd::prelude::*;
use crate::scan::FilePattern;
use crate::text::{
    begins_with, chars_of, ends_with, find_from, finishes_with, first_at, lines_of, slice_of,
    split_lines, starts_with, string_of, token_end, token_end_from, trim, trimmed, views,
};

verus! {

/// Content lines longer than this many characters are not matched.
pub const MAX_LINE_CHARS: usize = 5000;

/// What reading a diff yields, in order.
pub enum DiffEvent {
    /// A content line (trimmed) of a file that is not captured whole.
    Line { file: String, line: String },
    /// A watched file that ended with a blob reference: its content is to be
    /// captured under the first file rule whose extension it has.
    Capture { file: String, blob: String, description: String, binary: bool },
}

pub enum EventView {
    Line(Seq<char>, Seq<char>),
    Capture(Seq<char>, Seq<char>, Seq<char>, bool),
}

impl View for DiffEvent {
    type V = EventView;

    open spec fn view(&self) -> EventView {
        match self {
            DiffEvent::Line { file, line } => EventView::Line(file@, line@),
            DiffEvent::Capture { file, blob, description, binary } => EventView::Capture(
                file@,
                blob@,
                description@,
                *binary,
            ),
        }
    }
}

pub open spec fn event_views(v: Seq<DiffEvent>) -> Seq<EventView> {
    v.map_values(|e: DiffEvent| e@)
}

/// The reader's state: `watched` names the file rule of the current file when
/// it is captured whole (with the blob reference seen so far); otherwise the
/// reader is seeking a first file header or inside a file whose lines are matched.
pub struct ScanState {
    pub watched: Option<int>,
    pub blob: Option<Seq<char>>,
    pub file: Seq<char>,
}

pub open spec fn initial_state() -> ScanState {
    ScanState { watched: None, blob: None, file: Seq::empty() }
}

/// Whether a trimmed line opens a new file section.
pub open spec fn is_header(t: Seq<char>) -> bool {
    begins_with(t, "diff --git"@)
}

/// The path in a file header: what follows the fixed `diff --git a/` prefix,
/// up to the first `" b/"`. A path that itself holds `" b/"` is cut short there.
pub open spec fn header_path(t: Seq<char>) -> Seq<char> {
    let rest = if t.len() >= 13 {
        t.subrange(13, t.len() as int)
    } else {
        Seq::empty()
    };
    rest.subrange(0, first_at(rest, " b/"@, 0))
}

/// The first file rule at or after `i` whose extension ends `name`.
pub open spec fn watched_from(files: Seq<FilePattern>, name: Seq<char>, i: int) -> Option<int>
    decreases files.len() - i,
{
    if i < 0 || i >= files.len() {
        None
    } else if finishes_with(name, files[i].extension@) {
        Some(i)
    } else {
        watched_from(files, name, i + 1)
    }
}

/// The destination blob of a blob-index line: the token after the first `".."`.
pub open spec fn index_token(t: Seq<char>) -> Seq<char> {
    let k = first_at(t, ".."@, 0);
    if k + 2 <= t.len() {
        t.subrange(k + 2, token_end(t, k + 2))
    } else {
        Seq::empty()
    }
}

/// The capture that ending the current file yields.
pub open spec fn pending_capture(files: Seq<FilePattern>, st: ScanState) -> Seq<EventView> {
    match (st.watched, st.blob) {
        (Some(p), Some(b)) => if 0 <= p < files.len() {
            seq![
                EventView::Capture(
                    st.file,
                    b,
                    files[p].description@,
                    files[p].binary == Some(true),
                ),
            ]
        } else {
            Seq::empty()
        },
        _ => Seq::empty(),
    }
}

/// One transition on a trimmed line `t`: the next state and what it yields.
pub open spec fn step(files: Seq<FilePattern>, st: ScanState, t: Seq<char>) -> (
    ScanState,
    Seq<EventView>,
) {
    if is_header(t) {
        let name = header_path(t);
        (
            ScanState { watched: watched_from(files, name, 0), blob: None, file: name },
            pending_capture(files, st),
        )
    } else if st.watched is Some {
        if begins_with(t, "index "@) {
            (ScanState { blob: Some(index_token(t)), ..st }, Seq::empty())
        } else {
            (st, Seq::empty())
        }
    } else if t.len() > MAX_LINE_CHARS {
        (st, Seq::empty())
    } else {
        (st, seq![EventView::Line(st.file, t)])
    }
}

/// The state after the lines `ls` and what they yielded.
pub open spec fn run(files: Seq<FilePattern>, ls: Seq<Seq<char>>) -> (ScanState, Seq<EventView>)
    decreases ls.len(),
{
    if ls.len() == 0 {
        (initial_state(), Seq::empty())
    } else {
        let (st, ev) = run(files, ls.drop_last());
        let (st2, ev2) = step(files, st, trimmed(ls.last()));
        (st2, ev + ev2)
    }
}

/// Everything a diff text yields, the capture of a file still open at its end included.
pub open spec fn diff_events(files: Seq<FilePattern>, text: Seq<char>) -> Seq<EventView> {
    let (st, ev) = run(files, lines_of(text));
    ev + pending_capture(files, st)
}

struct Cursor {
    watched: Option<usize>,
    blob: Option<Vec<char>>,
    file: Vec<char>,
}

impl View for Cursor {
    type V = ScanState;

    closed spec fn view(&self) -> ScanState {
        ScanState {
            watched: match self.watched {
                Some(p) => Some(p as int),
                None => None,
            },
            blob: match self.blob {
                Some(b) => Some(b@),
                None => None,
            },
            file: self.file@,
        }
    }
}

proof fn lemma_event_views_push(v: Seq<DiffEvent>, e: DiffEvent)
    ensures
        event_views(v.push(e)) == event_views(v).push(e@),
{
    assert(event_views(v.push(e)) =~= event_views(v).push(e@));
}

/// The path named by a file header line; see `header_path` for what it cannot handle.
pub fn header_path_of(t: &[char]) -> (r: Vec<char>)
    ensures
        r@ == header_path(t@),
{
    let rest = if t.len() >= 13 {
        slice_of(t, 13, t.len())
    } else {
        Vec::new()
    };
    let sep = chars_of(" b/");
    let k = find_from(rest.as_slice(), sep.as_slice(), 0);
    slice_of(rest.as_slice(), 0, k)
}

fn watched_index(files: &Vec<FilePattern>, name: &[char]) -> (r: Option<usize>)
    ensures
        match r {
            Some(p) => watched_from(files@, name@, 0) == Some(p as int),
            None => watched_from(files@, name@, 0) is None,
        },
        r matches Some(p) ==> p < files@.len(),
{
    let mut i: usize = 0;
    while i < files.len()
        invariant
            i <= files@.len(),
            watched_from(files@, name@, 0) == watched_from(files@, name@, i as int),
        decreases files@.len() - i,
    {
        let ext = chars_of(files[i].extension.as_str());
        if ends_with(name, ext.as_slice()) {
            return Some(i);
        }
        i = i + 1;
    }
    None
}

fn index_token_of(t: &[char]) -> (r: Vec<char>)
    ensures
        r@ == index_token(t@),
{
    let dots = chars_of("..");
    let k = find_from(t, dots.as_slice(), 0);
    if k <= t.len() && 2 <= t.len() - k {
        let e = token_end_from(t, k + 2);
        slice_of(t, k + 2, e)
    } else {
        Vec::new()
    }
}

impl Cursor {
    fn flush(&self, files: &Vec<FilePattern>, out: &mut Vec<DiffEvent>)
        requires
            self.watched matches Some(p) ==> p < files@.len(),
        ensures
            event_views(final(out)@) == event_views(old(out)@) + pending_capture(files@, self@),
    {
        match (&self.watched, &self.blob) {
            (Some(p), Some(b)) => {
                let fp = &files[*p];
                let binary = match fp.binary {
                    Some(x) => x,
                    None => false,
                };
                let e = DiffEvent::Capture {
                    file: string_of(self.file.as_slice()),
                    blob: string_of(b.as_slice()),
                    description: fp.description.clone(),
                    binary,
                };
                proof {
                    lemma_event_views_push(out@, e);
                }
                out.push(e);
                assert(event_views(out@) =~= event_views(old(out)@) + pending_capture(
                    files@,
                    self@,
                ));
            },
            _ => {
                assert(event_views(out@) =~= event_views(old(out)@) + pending_capture(
                    files@,
                    self@,
                ));
            },
        }
    }

    fn advance(&mut self, files: &Vec<FilePattern>, t: &[char], out: &mut Vec<DiffEvent>)
        requires
            old(self).watched matches Some(p) ==> p < files@.len(),
        ensures
            final(self).watched matches Some(p) ==> p < files@.len(),
            final(self)@ == step(files@, old(self)@, t@).0,
            event_views(final(out)@) == event_views(old(out)@) + step(files@, old(self)@, t@).1,
    {
        let head = chars_of("diff --git");
        if starts_with(t, head.as_slice()) {
            self.flush(files, out);
            let name = header_path_of(t);
            self.watched = watched_index(files, name.as_slice());
            self.blob = None;
            self.file = name;
            return ;
        }
        if self.watched.is_some() {
            let idx = chars_of("index ");
            if starts_with(t, idx.as_slice()) {
                self.blob = Some(index_token_of(t));
            }
            assert(event_views(out@) =~= event_views(old(out)@) + step(files@, old(self)@, t@).1);
            return ;
        }
        if t.len() > MAX_LINE_CHARS {
            assert(event_views(out@) =~= event_views(old(out)@) + step(files@, old(self)@, t@).1);
            return ;
        }
        let e = DiffEvent::Line { file: string_of(self.file.as_slice()), line: string_of(t) };
        proof {
            lemma_event_views_push(out@, e);
        }
        out.push(e);
        assert(event_views(out@) =~= event_views(old(out)@) + step(files@, old(self)@, t@).1);
    }
}

/// Reads one commit's diff text into the lines to match and the files to capture.
pub fn parse_diff(diff: &str, files: &Vec<FilePattern>) -> (r: Vec<DiffEvent>)
    ensures
        event_views(r@) == diff_events(files@, diff@),
{
    let text = chars_of(diff);
    let ls = split_lines(text.as_slice());
    let mut cur = Cursor { watched: None, blob: None, file: Vec::new() };
    let mut out: Vec<DiffEvent> = Vec::new();
    assert(event_views(out@) =~= Seq::empty());
    let mut i: usize = 0;
    while i < ls.len()
        invariant
            i <= ls@.len(),
            views(ls@) == lines_of(diff@),
            cur.watched matches Some(p) ==> p < files@.len(),
            (cur@, event_views(out@)) == run(files@, views(ls@).take(i as int)),
        decreases ls@.len() - i,
    {
        assert(views(ls@).take(i + 1).drop_last() =~= views(ls@).take(i as int));
        let t = trim(ls[i].as_slice());
        cur.advance(files, t.as_slice(), &mut out);
        i = i + 1;
    }
    assert(views(ls@).take(ls@.len() as int) =~= views(ls@));
    cur.flush(files, &mut out);
    out
}

} // verus!
