//! Loading filter files and the files that they chain.
//!
//! The loader says which file comes next and is told what the file holds. A
//! file comes before the files that it chains, and those before whatever
//! comes after it. Each file is loaded once: naming one again is an error,
//! which also ends every circle.
use vstd::prelude::*;

use super::FilterConfig;
use crate::error::{Error, Fault};
use crate::message;
use crate::text;

verus! {

/// A file to load.
#[derive(Debug)]
pub struct Request {
    /// Its path, as it was written.
    pub path: String,
    /// The number of the loaded file that names it, to which a relative path
    /// is relative. Numbers count from zero, in the order of loading.
    pub from: Option<usize>,
}

/// What a request asks for.
pub struct RequestView {
    pub path: Seq<char>,
    pub from: Option<usize>,
}

impl View for Request {
    type V = RequestView;

    open spec fn view(&self) -> RequestView {
        RequestView { path: self.path@, from: self.from }
    }
}

/// The state of loading.
pub struct LoaderView {
    /// The files to load, the next one first.
    pub pending: Seq<RequestView>,
    /// The canonical paths of the files that were entered, in order.
    pub visited: Seq<Seq<u8>>,
    /// The files that were loaded, in order.
    pub loaded: Seq<FilterConfig>,
}

/// Loads filter files and the files that they chain.
pub struct Loader {
    // The next request is the last one.
    stack: Vec<Request>,
    visited: Vec<Vec<u8>>,
    loaded: Vec<FilterConfig>,
}

impl View for Loader {
    type V = LoaderView;

    closed spec fn view(&self) -> LoaderView {
        LoaderView {
            pending: requests(self.stack@).reverse(),
            visited: message::byte_views(self.visited@),
            loaded: self.loaded@,
        }
    }
}

/// What some requests ask for.
pub open spec fn requests(stack: Seq<Request>) -> Seq<RequestView> {
    stack.map_values(|r: Request| r@)
}

/// The requests for some paths that one file names.
pub open spec fn requests_for(paths: Seq<Seq<char>>, from: Option<usize>) -> Seq<RequestView> {
    paths.map_values(|path: Seq<char>| RequestView { path, from })
}

/// The state before anything was loaded.
pub open spec fn started(paths: Seq<Seq<char>>) -> LoaderView {
    LoaderView {
        pending: requests_for(paths, None),
        visited: Seq::empty(),
        loaded: Seq::empty(),
    }
}

/// The state after the next file was entered, whose canonical path is given.
pub open spec fn entered(state: LoaderView, canonical: Seq<u8>) -> LoaderView {
    LoaderView { visited: state.visited.push(canonical), ..state }
}

/// The state after the entered file was loaded: the files that it chains come
/// next, before the others.
pub open spec fn added(state: LoaderView, config: FilterConfig) -> LoaderView {
    LoaderView {
        pending: requests_for(text::views(config.chain@), Some(state.loaded.len() as usize))
            + state.pending.drop_first(),
        loaded: state.loaded.push(config),
        ..state
    }
}

/// Puts requests for some paths on a stack, so that the first comes off first.
fn push_requests(stack: &mut Vec<Request>, paths: &[String], from: Option<usize>)
    ensures
        requests(final(stack)@).reverse() == requests_for(text::views(paths@), from) + requests(
            old(stack)@,
        ).reverse(),
{
    let ghost before = requests(stack@).reverse();
    let ghost wanted = requests_for(text::views(paths@), from);
    let mut i: usize = paths.len();
    assert(wanted.skip(i as int) + before =~= before);
    while i > 0
        invariant
            i <= paths@.len(),
            wanted == requests_for(text::views(paths@), from),
            requests(stack@).reverse() == wanted.skip(i as int) + before,
        decreases i,
    {
        i -= 1;
        let ghost so_far = requests(stack@).reverse();
        stack.push(Request { path: paths[i].clone(), from });
        proof {
            assert(requests(stack@).reverse() =~= seq![wanted[i as int]] + so_far);
            assert(seq![wanted[i as int]] + (wanted.skip(i + 1) + before) =~= wanted.skip(i as int)
                + before);
        }
    }
    assert(wanted.skip(0) =~= wanted);
}

/// Whether two byte strings are the same.
fn same_bytes(a: &[u8], b: &[u8]) -> (r: bool)
    ensures
        r == (a@ == b@),
{
    if a.len() != b.len() {
        return false;
    }
    let mut i: usize = 0;
    while i < a.len()
        invariant
            a@.len() == b@.len(),
            i <= a@.len(),
            forall|j: int| 0 <= j < i ==> a@[j] == b@[j],
        decreases a@.len() - i,
    {
        if a[i] != b[i] {
            return false;
        }
        i += 1;
    }
    assert(a@ =~= b@);
    true
}

impl Loader {
    /// No file was entered twice, and no more were loaded than entered.
    #[verifier::type_invariant]
    spec fn entered_once(&self) -> bool {
        self@.visited.no_duplicates() && self.loaded@.len() <= self.visited@.len()
    }

    /// Starts with some files, in order.
    pub fn new(paths: &[String]) -> (r: Loader)
        ensures
            r@ == started(text::views(paths@)),
    {
        let mut stack: Vec<Request> = Vec::new();
        push_requests(&mut stack, paths, None);
        let r = Loader { stack, visited: Vec::new(), loaded: Vec::new() };
        proof {
            assert(r@.pending =~= requests_for(text::views(paths@), None));
            assert(r@.visited =~= Seq::<Seq<u8>>::empty());
        }
        r
    }

    /// The file to load next, or none when all are loaded.
    pub fn next(&self) -> (r: Option<&Request>)
        ensures
            match r {
                Some(request) => self@.pending.len() > 0 && request@ == self@.pending[0],
                None => self@.pending.len() == 0,
            },
    {
        if self.stack.len() == 0 {
            None
        } else {
            Some(&self.stack[self.stack.len() - 1])
        }
    }

    /// Enters the next file, given its canonical path and how to show it.
    pub fn enter(self, canonical: Vec<u8>, shown: &str) -> (r: Result<Entered, Error>)
        requires
            self@.pending.len() > 0,
        ensures
            match r {
                Ok(entered) => {
                    &&& !self@.visited.contains(canonical@)
                    &&& entered@ == self::entered(self@, canonical@)
                    &&& entered@.visited.no_duplicates()
                },
                Err(e) => self@.visited.contains(canonical@) && e@ == Fault::CircularChain(shown@),
            },
    {
        proof {
            use_type_invariant(&self);
        }
        let ghost before = self@;
        let Loader { stack, mut visited, loaded } = self;
        let mut i: usize = 0;
        while i < visited.len()
            invariant
                i <= visited@.len(),
                before.visited == message::byte_views(visited@),
                before.visited == self@.visited,
                forall|j: int| 0 <= j < i ==> #[trigger] before.visited[j] != canonical@,
            decreases visited@.len() - i,
        {
            assert(before.visited[i as int] == visited@[i as int]@);
            if same_bytes(visited[i].as_slice(), canonical.as_slice()) {
                assert(self@.visited[i as int] == canonical@);
                return Err(Error::CircularChain(shown.to_owned()));
            }
            i += 1;
        }
        let ghost seen = visited@;
        visited.push(canonical);
        assert(message::byte_views(visited@) =~= message::byte_views(seen).push(canonical@));
        Ok(Entered { stack, visited, loaded })
    }

    /// The loaded filters, in order.
    pub fn finish(self) -> (r: Vec<FilterConfig>)
        ensures
            r@ == self@.loaded,
    {
        self.loaded
    }
}

/// The state of loading after the next file was entered.
pub struct Entered {
    stack: Vec<Request>,
    visited: Vec<Vec<u8>>,
    loaded: Vec<FilterConfig>,
}

impl View for Entered {
    type V = LoaderView;

    closed spec fn view(&self) -> LoaderView {
        LoaderView {
            pending: requests(self.stack@).reverse(),
            visited: message::byte_views(self.visited@),
            loaded: self.loaded@,
        }
    }
}

impl Entered {
    /// No file was entered twice, and one was entered that is not loaded yet.
    #[verifier::type_invariant]
    spec fn one_is_open(&self) -> bool {
        &&& self@.visited.no_duplicates()
        &&& self.loaded@.len() < self.visited@.len()
        &&& self.stack@.len() > 0
    }

    /// Takes what the entered file holds: its filter, and the files that it
    /// chains, which come next.
    pub fn add(self, config: FilterConfig) -> (r: Loader)
        ensures
            r@ == added(self@, config),
    {
        proof {
            use_type_invariant(&self);
        }
        let Entered { mut stack, visited, mut loaded } = self;
        let number: usize = loaded.len();
        let ghost before = requests(stack@);
        stack.pop();
        proof {
            assert(requests(stack@) =~= before.drop_last());
            assert(before.drop_last().reverse() =~= before.reverse().drop_first());
        }
        push_requests(&mut stack, config.chain.as_slice(), Some(number));
        loaded.push(config);
        Loader { stack, visited, loaded }
    }
}

// --- Loading as a whole ---

/// The files that loading finds: where a path leads that is written in the
/// file with a canonical path, or outside of any file, and what is there.
pub struct Files {
    pub find: spec_fn(Option<Seq<u8>>, Seq<char>) -> Option<(Seq<u8>, FilterConfig)>,
}

/// The file that a request leads to, after some files were entered.
pub open spec fn found(
    files: Files,
    visited: Seq<Seq<u8>>,
    request: RequestView,
) -> Option<(Seq<u8>, FilterConfig)> {
    (files.find)(
        match request.from {
            Some(number) => Some(visited[number as int]),
            None => None,
        },
        request.path,
    )
}

/// The state after one more file, if it is there and was not entered before.
pub open spec fn step(files: Files, state: LoaderView) -> Option<LoaderView> {
    match found(files, state.visited, state.pending[0]) {
        Some((canonical, config)) => if state.visited.contains(canonical) {
            None
        } else {
            Some(added(entered(state, canonical), config))
        },
        None => None,
    }
}

/// How loading stands after some steps.
pub enum Loading {
    Done(LoaderView),
    Failed,
    Unfinished,
}

/// How loading stands after at most some number of steps.
pub open spec fn run(files: Files, state: LoaderView, steps: nat) -> Loading
    decreases steps,
{
    if state.pending.len() == 0 {
        Loading::Done(state)
    } else if steps == 0 {
        Loading::Unfinished
    } else {
        match step(files, state) {
            Some(next) => run(files, next, (steps - 1) as nat),
            None => Loading::Failed,
        }
    }
}

/// The files that were entered and loaded so far.
pub struct Progress {
    pub visited: Seq<Seq<u8>>,
    pub loaded: Seq<FilterConfig>,
}

/// Loads the file that a request leads to and, after it, the files that it
/// chains, each with its own, to at most some depth.
pub open spec fn load_file(
    files: Files,
    request: RequestView,
    progress: Progress,
    depth: nat,
) -> Option<Progress>
    decreases depth, 0nat,
{
    if depth == 0 {
        None
    } else {
        match found(files, progress.visited, request) {
            Some((canonical, config)) => if progress.visited.contains(canonical) {
                None
            } else {
                load_each(
                    files,
                    requests_for(
                        text::views(config.chain@),
                        Some(progress.loaded.len() as usize),
                    ),
                    Progress {
                        visited: progress.visited.push(canonical),
                        loaded: progress.loaded.push(config),
                    },
                    (depth - 1) as nat,
                )
            },
            None => None,
        }
    }
}

/// Loads the files that some requests lead to, one after the other, each with
/// the files that it chains.
pub open spec fn load_each(
    files: Files,
    requests: Seq<RequestView>,
    progress: Progress,
    depth: nat,
) -> Option<Progress>
    decreases depth, requests.len(),
{
    if requests.len() == 0 {
        Some(progress)
    } else {
        match load_file(files, requests[0], progress, depth) {
            Some(next) => load_each(files, requests.drop_first(), next, depth),
            None => None,
        }
    }
}

/// The state with some progress and some requests to come.
spec fn at(progress: Progress, pending: Seq<RequestView>) -> LoaderView {
    LoaderView { pending, visited: progress.visited, loaded: progress.loaded }
}

/// What loads to some depth loads the same to a greater depth.
proof fn lemma_deeper(
    files: Files,
    requests: Seq<RequestView>,
    progress: Progress,
    depth: nat,
    more: nat,
)
    requires
        depth <= more,
        load_each(files, requests, progress, depth) is Some,
    ensures
        load_each(files, requests, progress, more) == load_each(files, requests, progress, depth),
    decreases depth, requests.len(),
{
    if requests.len() > 0 {
        let request = requests[0];
        let next = load_file(files, request, progress, depth)->0;
        let (canonical, config) = found(files, progress.visited, request)->0;
        let chained = requests_for(
            text::views(config.chain@),
            Some(progress.loaded.len() as usize),
        );
        let opened = Progress {
            visited: progress.visited.push(canonical),
            loaded: progress.loaded.push(config),
        };
        assert(load_each(files, chained, opened, (depth - 1) as nat) == Some(next));
        lemma_deeper(files, chained, opened, (depth - 1) as nat, (more - 1) as nat);
        assert(load_file(files, request, progress, more) == Some(next));
        lemma_deeper(files, requests.drop_first(), next, depth, more);
    }
}

/// What loads recursively is loaded by as many steps as there are files in it,
/// and not before.
proof fn lemma_steps_load(
    files: Files,
    requests: Seq<RequestView>,
    rest: Seq<RequestView>,
    progress: Progress,
    depth: nat,
    steps: nat,
)
    requires
        load_each(files, requests, progress, depth) is Some,
    ensures
        ({
            let next = load_each(files, requests, progress, depth)->0;
            let number = next.loaded.len() - progress.loaded.len();
            &&& number >= 0
            &&& run(files, at(progress, requests + rest), steps) == if steps < number {
                Loading::Unfinished
            } else {
                run(files, at(next, rest), (steps - number) as nat)
            }
        }),
    decreases depth, requests.len(),
{
    if requests.len() == 0 {
        assert(requests + rest =~= rest);
    } else {
        let request = requests[0];
        let others = requests.drop_first();
        let after = load_file(files, request, progress, depth)->0;
        let (canonical, config) = found(files, progress.visited, request)->0;
        let chained = requests_for(
            text::views(config.chain@),
            Some(progress.loaded.len() as usize),
        );
        let opened = Progress {
            visited: progress.visited.push(canonical),
            loaded: progress.loaded.push(config),
        };
        let state = at(progress, requests + rest);
        assert(state.pending[0] == request);
        assert(state.pending.drop_first() =~= others + rest);
        assert(step(files, state) == Some(at(opened, chained + (others + rest))));
        let fewer = if steps > 0 {
            (steps - 1) as nat
        } else {
            0
        };
        lemma_steps_load(files, chained, others + rest, opened, (depth - 1) as nat, fewer);
        let number = after.loaded.len() - opened.loaded.len();
        let left = if fewer >= number {
            (fewer - number) as nat
        } else {
            0
        };
        lemma_steps_load(files, others, rest, after, depth, left);
    }
}

/// What the steps load is loaded recursively, too.
proof fn lemma_load_is_recursive(
    files: Files,
    requests: Seq<RequestView>,
    rest: Seq<RequestView>,
    progress: Progress,
    steps: nat,
)
    requires
        run(files, at(progress, requests + rest), steps) is Done,
    ensures
        load_each(files, requests, progress, steps) is Some,
    decreases steps, requests.len(),
{
    if requests.len() > 0 {
        let request = requests[0];
        let others = requests.drop_first();
        let state = at(progress, requests + rest);
        assert(state.pending[0] == request);
        assert(state.pending.drop_first() =~= others + rest);
        let (canonical, config) = found(files, progress.visited, request)->0;
        let chained = requests_for(
            text::views(config.chain@),
            Some(progress.loaded.len() as usize),
        );
        let opened = Progress {
            visited: progress.visited.push(canonical),
            loaded: progress.loaded.push(config),
        };
        assert(step(files, state) == Some(at(opened, chained + (others + rest))));
        let fewer = (steps - 1) as nat;
        lemma_load_is_recursive(files, chained, others + rest, opened, fewer);
        lemma_steps_load(files, chained, others + rest, opened, fewer, fewer);
        let after = load_each(files, chained, opened, fewer)->0;
        let number = after.loaded.len() - opened.loaded.len();
        let left = (fewer - number) as nat;
        assert(load_file(files, request, progress, steps) == Some(after));
        lemma_load_is_recursive(files, others, rest, after, left);
        lemma_deeper(files, others, after, left, steps);
    }
}

/// Files are loaded in chain order: each file, then the files that it chains,
/// one after the other, each of them followed by its own.
pub proof fn loading_follows_the_chains(
    files: Files,
    paths: Seq<Seq<char>>,
    steps: nat,
    done: LoaderView,
)
    requires
        run(files, started(paths), steps) == Loading::Done(done),
    ensures
        load_each(
            files,
            requests_for(paths, None),
            Progress { visited: Seq::empty(), loaded: Seq::empty() },
            steps,
        ) == Some(Progress { visited: done.visited, loaded: done.loaded }),
{
    let requests = requests_for(paths, None);
    let rest = Seq::<RequestView>::empty();
    let nothing = Progress { visited: Seq::empty(), loaded: Seq::empty() };
    assert(requests + rest =~= requests);
    lemma_load_is_recursive(files, requests, rest, nothing, steps);
    lemma_steps_load(files, requests, rest, nothing, steps, steps);
}

/// What the chains lead to is loaded, by one step for each file.
pub proof fn chains_are_loaded(
    files: Files,
    paths: Seq<Seq<char>>,
    depth: nat,
    progress: Progress,
)
    requires
        load_each(
            files,
            requests_for(paths, None),
            Progress { visited: Seq::empty(), loaded: Seq::empty() },
            depth,
        ) == Some(progress),
    ensures
        run(files, started(paths), progress.loaded.len()) == Loading::Done(
            LoaderView {
                pending: Seq::empty(),
                visited: progress.visited,
                loaded: progress.loaded,
            },
        ),
{
    let requests = requests_for(paths, None);
    let rest = Seq::<RequestView>::empty();
    let nothing = Progress { visited: Seq::empty(), loaded: Seq::empty() };
    assert(requests + rest =~= requests);
    lemma_steps_load(files, requests, rest, nothing, depth, progress.loaded.len());
}

/// Loading ends, even where files chain each other in a circle: once every
/// file was entered, it is done or has failed.
pub proof fn loading_ends(files: Files, known: Set<Seq<u8>>, paths: Seq<Seq<char>>)
    requires
        known.finite(),
        forall|from: Option<Seq<u8>>, path: Seq<char>|
            (#[trigger] (files.find)(from, path)) matches Some((canonical, _)) ==> known.contains(
                canonical,
            ),
    ensures
        !(run(files, started(paths), known.len() + 1) is Unfinished),
{
    lemma_loading_ends(files, known, started(paths), known.len() + 1);
}

proof fn lemma_loading_ends(files: Files, known: Set<Seq<u8>>, state: LoaderView, steps: nat)
    requires
        known.finite(),
        forall|from: Option<Seq<u8>>, path: Seq<char>|
            (#[trigger] (files.find)(from, path)) matches Some((canonical, _)) ==> known.contains(
                canonical,
            ),
        state.visited.no_duplicates(),
        forall|i: int| 0 <= i < state.visited.len() ==> known.contains(#[trigger] state.visited[i]),
        steps + state.visited.len() > known.len(),
    ensures
        !(run(files, state, steps) is Unfinished),
    decreases steps,
{
    state.visited.unique_seq_to_set();
    assert(state.visited.to_set().subset_of(known));
    vstd::set_lib::lemma_len_subset(state.visited.to_set(), known);
    if state.pending.len() > 0 {
        if let Some(next) = step(files, state) {
            let (canonical, config) = found(files, state.visited, state.pending[0])->0;
            assert(next.visited == state.visited.push(canonical));
            lemma_loading_ends(files, known, next, (steps - 1) as nat);
        }
    }
}

/// A file that another one chains was loaded, after the one that chains it.
pub open spec fn loaded_later(files: Files, state: LoaderView, i: int, k: int) -> bool {
    match (files.find)(Some(state.visited[i]), state.loaded[i].chain@[k]@) {
        Some((canonical, _)) => exists|j: int|
            i < j < state.visited.len() && #[trigger] state.visited[j] == canonical,
        None => false,
    }
}

/// The request of a file for one that it chains.
spec fn chain_request(state: LoaderView, i: int, k: int) -> RequestView {
    RequestView { path: state.loaded[i].chain@[k]@, from: Some(i as usize) }
}

/// Each chained file was loaded, or is still to come.
spec fn chains_kept(files: Files, state: LoaderView) -> bool {
    &&& state.visited.len() == state.loaded.len()
    &&& state.visited.no_duplicates()
    &&& forall|i: int, k: int|
        #![trigger loaded_later(files, state, i, k)]
        #![trigger chain_request(state, i, k)]
        0 <= i < state.loaded.len() && 0 <= k < state.loaded[i].chain@.len() ==> loaded_later(
            files,
            state,
            i,
            k,
        ) || state.pending.contains(chain_request(state, i, k))
}

proof fn lemma_chains_kept(files: Files, state: LoaderView)
    requires
        state.pending.len() > 0,
        state.loaded.len() < usize::MAX,
        chains_kept(files, state),
        step(files, state) is Some,
    ensures
        chains_kept(files, step(files, state)->0),
{
    let next = step(files, state)->0;
    let (canonical, config) = found(files, state.visited, state.pending[0])->0;
    let n = state.loaded.len() as int;
    let chained = requests_for(text::views(config.chain@), Some(n as usize));
    assert(next.pending == chained + state.pending.drop_first());
    assert forall|i: int, k: int|
        #![trigger loaded_later(files, next, i, k)]
        #![trigger chain_request(next, i, k)]
        0 <= i < next.loaded.len() && 0 <= k < next.loaded[i].chain@.len() implies loaded_later(
        files,
        next,
        i,
        k,
    ) || next.pending.contains(chain_request(next, i, k)) by {
        let request = chain_request(next, i, k);
        if i == n {
            assert(chained[k] == request);
            assert(next.pending[k] == request);
        } else {
            assert(request == chain_request(state, i, k));
            assert(next.visited[i] == state.visited[i]);
            if loaded_later(files, state, i, k) {
                let (c, _) = (files.find)(Some(state.visited[i]), state.loaded[i].chain@[k]@)->0;
                let j = choose|j: int|
                    i < j < state.visited.len() && #[trigger] state.visited[j] == c;
                assert(next.visited[j] == c);
            } else {
                let p = choose|p: int| 0 <= p < state.pending.len() && state.pending[p] == request;
                if p == 0 {
                    assert(next.visited[n] == canonical);
                } else {
                    assert(state.pending.drop_first()[p - 1] == request);
                    assert(next.pending[chained.len() + p - 1] == request);
                }
            }
        }
    }
}

proof fn lemma_run_keeps_chains(files: Files, state: LoaderView, steps: nat)
    requires
        chains_kept(files, state),
        run(files, state, steps) is Done,
        run(files, state, steps)->Done_0.loaded.len() <= usize::MAX,
    ensures
        chains_kept(files, run(files, state, steps)->Done_0),
        run(files, state, steps)->Done_0.pending.len() == 0,
        run(files, state, steps)->Done_0.loaded.len() >= state.loaded.len(),
    decreases steps,
{
    if state.pending.len() > 0 {
        let next = step(files, state)->0;
        lemma_run_grows(files, next, (steps - 1) as nat);
        lemma_chains_kept(files, state);
        lemma_run_keeps_chains(files, next, (steps - 1) as nat);
    }
}

proof fn lemma_run_grows(files: Files, state: LoaderView, steps: nat)
    requires
        run(files, state, steps) is Done,
    ensures
        run(files, state, steps)->Done_0.loaded.len() >= state.loaded.len(),
    decreases steps,
{
    if state.pending.len() > 0 {
        lemma_run_grows(files, step(files, state)->0, (steps - 1) as nat);
    }
}

/// Where loading is done, no file was loaded twice, and every file that
/// another one chains was loaded after it. So no file chains itself, directly
/// or through others: loading fails where one does.
pub proof fn loaded_chains_have_no_circles(
    files: Files,
    paths: Seq<Seq<char>>,
    steps: nat,
    done: LoaderView,
)
    requires
        run(files, started(paths), steps) == Loading::Done(done),
        done.loaded.len() <= usize::MAX,
    ensures
        done.visited.len() == done.loaded.len(),
        done.visited.no_duplicates(),
        forall|i: int, k: int|
            0 <= i < done.loaded.len() && 0 <= k < done.loaded[i].chain@.len()
                ==> #[trigger] loaded_later(files, done, i, k),
{
    lemma_run_keeps_chains(files, started(paths), steps);
}

/// Loading starts with the files that are named, in the order in which they are,
/// and with nothing loaded.
pub proof fn named_files_come_first(paths: Seq<Seq<char>>)
    ensures
        started(paths).pending.len() == paths.len(),
        forall|i: int|
            0 <= i < paths.len() ==> #[trigger] started(paths).pending[i] == (RequestView {
                path: paths[i],
                from: None,
            }),
        started(paths).visited.len() == 0,
        started(paths).loaded.len() == 0,
{
}

/// The files that a loaded file chains come next, in the order in which it names
/// them and relative to it, and after them what was to come anyway. The file
/// itself is loaded after those before it.
pub proof fn chained_files_come_next(state: LoaderView, config: FilterConfig)
    requires
        state.pending.len() > 0,
        state.loaded.len() <= usize::MAX,
    ensures
        ({
            let next = added(state, config);
            let chained = config.chain@.len();
            &&& next.pending.len() == chained + state.pending.len() - 1
            &&& forall|i: int|
                0 <= i < chained ==> (#[trigger] next.pending[i]).path == config.chain@[i]@
                    && next.pending[i].from == Some(state.loaded.len() as usize)
            &&& forall|i: int|
                1 <= i < state.pending.len() ==> next.pending[chained + i - 1]
                    == #[trigger] state.pending[i]
            &&& next.loaded == state.loaded.push(config)
            &&& next.visited == state.visited
        }),
{
}

/// Entering a file notes its canonical path, and leaves what is to come and what
/// was loaded.
pub proof fn entered_files_are_remembered(state: LoaderView, canonical: Seq<u8>)
    ensures
        entered(state, canonical).visited == state.visited.push(canonical),
        entered(state, canonical).pending == state.pending,
        entered(state, canonical).loaded == state.loaded,
{
}

/// A request is for the path in it, from the file in it.
pub proof fn requests_are_for_their_path(request: Request)
    ensures
        request@.path == request.path@,
        request@.from == request.from,
{
}

} // verus!
