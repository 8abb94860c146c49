//! Where the language server reads sources from, and how it finds the
//! configuration entry of the project that a file belongs to. Paths are
//! `/`-separated text.
use vstd::prelude::*;
use vstd::string::*;

use crate::id_map::IdMap;

verus! {

/// A source of file contents and existence, keyed by path text.
pub trait SourceProvider {
    /// What the provider reports of `path`. An implementation that does
    /// not define it answers as some function of the provider and the path
    /// that nothing here knows; one that reads the file system meets this
    /// while the files it is asked about do not change.
    closed spec fn spec_path_exists(&self, path: Seq<char>) -> bool {
        (choose|answer: spec_fn(&Self, Seq<char>) -> bool| #[trigger] answer(self, path) || true)(self, path)
    }

    fn read_to_string(&self, path: &str) -> Option<String>;

    fn path_exists(&self, path: &str) -> (r: bool)
        ensures
            r == self.spec_path_exists(path@),
    ;
}

/// Files held in memory, by path.
#[derive(Debug)]
pub struct InMemorySourceProvider {
    files: IdMap<String, String>,
}

impl InMemorySourceProvider {
    #[verifier::type_invariant]
    spec fn files_well_formed(self) -> bool {
        self.files.wf()
    }

    /// The stored files.
    pub closed spec fn files(self) -> IdMap<String, String> {
        self.files
    }

    pub fn new(files: IdMap<String, String>) -> (r: Self)
        requires
            files.wf(),
        ensures
            r.files() == files,
    {
        InMemorySourceProvider { files }
    }

    /// Stores (or replaces) the file at `path`.
    pub fn insert(&mut self, path: String, source: String)
        ensures
            final(self).files().wf(),
            forall|t: Seq<char>| #[trigger] final(self).files().spec_get(t) == (if t == path@ {
                Some(source)
            } else {
                old(self).files().spec_get(t)
            }),
    {
        proof {
            use_type_invariant(&*self);
        }
        let mut files = IdMap::new();
        std::mem::swap(&mut files, &mut self.files);
        files.insert(path, source);
        self.files = files;
    }

    /// Forgets the file at `path`.
    pub fn remove(&mut self, path: &String)
        ensures
            final(self).files().wf(),
            forall|t: Seq<char>| #[trigger] final(self).files().spec_get(t) == (if t == path@ {
                None
            } else {
                old(self).files().spec_get(t)
            }),
    {
        proof {
            use_type_invariant(&*self);
        }
        let mut files = IdMap::new();
        std::mem::swap(&mut files, &mut self.files);
        files.remove(path);
        self.files = files;
    }
}

impl Default for InMemorySourceProvider {
    fn default() -> (r: Self)
        ensures
            r.files().wf(),
            r.files().size() == 0,
    {
        InMemorySourceProvider { files: IdMap::new() }
    }
}

impl SourceProvider for InMemorySourceProvider {
    open spec fn spec_path_exists(&self, path: Seq<char>) -> bool {
        self.files().contains(path)
    }

    fn read_to_string(&self, path: &str) -> (r: Option<String>)
        ensures
            match r {
                Some(s) => self.files().spec_get(path@) == Some(s),
                None => self.files().spec_get(path@) is None,
            },
    {
        proof {
            use_type_invariant(self);
        }
        let key = path.to_owned();
        match self.files.get(&key) {
            Some(source) => Some(source.clone()),
            None => None,
        }
    }

    fn path_exists(&self, path: &str) -> (r: bool)
        ensures
            r == self.files().contains(path@),
    {
        proof {
            use_type_invariant(self);
        }
        let key = path.to_owned();
        self.files.contains_key(&key)
    }
}

impl InMemorySourceProvider {
    /// The file stored at `path`, if any.
    pub fn source_at(&self, path: &str) -> (r: Option<String>)
        ensures
            match r {
                Some(s) => self.files().spec_get(path@) == Some(s),
                None => self.files().spec_get(path@) is None,
            },
    {
        proof {
            use_type_invariant(self);
        }
        let key = path.to_owned();
        match self.files.get(&key) {
            Some(source) => Some(source.clone()),
            None => None,
        }
    }
}

pub open spec fn slash() -> char {
    '/'
}

/// The path without trailing slashes (a lone `/` stays).
pub open spec fn without_trailing_slashes(p: Seq<char>) -> Seq<char>
    decreases p.len(),
{
    if p.len() > 1 && p.last() == slash() {
        without_trailing_slashes(p.drop_last())
    } else {
        p
    }
}

/// Position of the last `/` among the first `n` characters, or -1.
pub open spec fn last_slash(p: Seq<char>, n: int) -> int
    decreases n,
{
    if n <= 0 {
        -1
    } else if p[n - 1] == slash() {
        n - 1
    } else {
        last_slash(p, n - 1)
    }
}

/// The directory that holds `p`: none for the empty path and the root.
pub open spec fn parent_path(p: Seq<char>) -> Option<Seq<char>> {
    if p.len() == 0 || p == seq![slash()] {
        None
    } else {
        let t = without_trailing_slashes(p);
        let i = last_slash(t, t.len() as int);
        if i < 0 {
            Some(Seq::empty())
        } else if i == 0 {
            Some(seq![slash()])
        } else {
            Some(without_trailing_slashes(t.subrange(0, i)))
        }
    }
}

/// `name` inside directory `dir`.
pub open spec fn join_path(dir: Seq<char>, name: Seq<char>) -> Seq<char> {
    if dir.len() == 0 {
        name
    } else if dir.last() == slash() {
        dir + name
    } else {
        dir + seq![slash()] + name
    }
}

/// The configuration entry names, in order of preference.
pub open spec fn config_entry_names() -> Seq<Seq<char>> {
    seq![
        seq!['c', 'o', 'n', 'f', 'i', 'g', '.', 't', 's', 'x'],
        seq!['c', 'o', 'n', 'f', 'i', 'g', '.', 't', 's'],
        seq!['c', 'o', 'n', 'f', 'i', 'g', '.', 'j', 's', 'x'],
        seq!['c', 'o', 'n', 'f', 'i', 'g', '.', 'j', 's'],
    ]
}

/// The entry named by the first of the four answers that is `true`, in
/// the order of `config_entry_names`; none when all are `false`.
pub open spec fn select_entry(dir: Seq<char>, found: Seq<bool>) -> Option<Seq<char>> {
    let names = config_entry_names();
    if found[0] {
        Some(join_path(dir, names[0]))
    } else if found[1] {
        Some(join_path(dir, names[1]))
    } else if found[2] {
        Some(join_path(dir, names[2]))
    } else if found[3] {
        Some(join_path(dir, names[3]))
    } else {
        None
    }
}

/// The first configuration entry that `present` reports directly in
/// `dir`, asking for `config.tsx`, `config.ts`, `config.jsx`, `config.js`.
pub open spec fn config_entry_in(present: spec_fn(Seq<char>) -> bool, dir: Seq<char>) -> Option<Seq<char>> {
    let names = config_entry_names();
    select_entry(
        dir,
        seq![
            present(join_path(dir, names[0])),
            present(join_path(dir, names[1])),
            present(join_path(dir, names[2])),
            present(join_path(dir, names[3])),
        ],
    )
}

pub proof fn lemma_without_trailing_slashes(p: Seq<char>)
    ensures
        without_trailing_slashes(p).len() <= p.len(),
        p.len() > 0 ==> without_trailing_slashes(p).len() > 0,
        without_trailing_slashes(p) == p.subrange(0, without_trailing_slashes(p).len() as int),
    decreases p.len(),
{
    if p.len() > 1 && p.last() == slash() {
        lemma_without_trailing_slashes(p.drop_last());
        assert(p.drop_last().subrange(0, without_trailing_slashes(p).len() as int) =~= p.subrange(
            0,
            without_trailing_slashes(p).len() as int,
        ));
    } else {
        assert(p.subrange(0, p.len() as int) =~= p);
    }
}

pub proof fn lemma_last_slash(p: Seq<char>, n: int)
    requires
        0 <= n <= p.len(),
    ensures
        -1 <= last_slash(p, n) < n,
    decreases n,
{
    if n > 0 {
        lemma_last_slash(p, n - 1);
    }
}

pub proof fn lemma_parent_shorter(p: Seq<char>)
    ensures
        parent_path(p) matches Some(q) ==> q.len() < p.len(),
{
    if p.len() > 0 && p != seq![slash()] {
        let t = without_trailing_slashes(p);
        lemma_without_trailing_slashes(p);
        lemma_last_slash(t, t.len() as int);
        let i = last_slash(t, t.len() as int);
        if i == 0 {
            if p.len() == 1 {
                assert(t.len() == 1);
                assert(t =~= p);
                assert(last_slash(t, 1) == (if t[0] == slash() { 0int } else { last_slash(t, 0) }));
                assert(t[0] == slash());
                assert(p =~= seq![slash()]);
            }
        } else if i > 0 {
            lemma_without_trailing_slashes(t.subrange(0, i));
        }
    }
}

/// The first configuration entry reported in `dir` or, failing that, in
/// the directories above it, nearest first.
pub open spec fn config_entry_from(present: spec_fn(Seq<char>) -> bool, dir: Seq<char>) -> Option<Seq<char>>
    decreases dir.len(),
{
    match config_entry_in(present, dir) {
        Some(entry) => Some(entry),
        None => match parent_path(dir) {
            None => None,
            Some(up) => if up.len() < dir.len() {
                config_entry_from(present, up)
            } else {
                None
            },
        },
    }
}

/// Where the search for the configuration entry of `path` starts: the
/// path itself when it is a directory, else its parent.
pub open spec fn search_start(path: Seq<char>, path_is_dir: bool) -> Option<Seq<char>> {
    if path_is_dir {
        Some(path)
    } else {
        parent_path(path)
    }
}

/// The configuration entry of the project that `path` belongs to.
pub open spec fn spec_config_entry_for(present: spec_fn(Seq<char>) -> bool, path: Seq<char>, path_is_dir: bool) -> Option<
    Seq<char>,
> {
    match search_start(path, path_is_dir) {
        Some(start) => config_entry_from(present, start),
        None => None,
    }
}

fn ends_with_slash(s: &str) -> (r: bool)
    ensures
        r == (s@.len() > 0 && s@.last() == slash()),
{
    let n = s.unicode_len();
    n > 0 && s.get_char(n - 1) == '/'
}

pub(crate) fn join_text(dir: &str, name: &str) -> (r: String)
    ensures
        r@ == join_path(dir@, name@),
{
    let n = dir.unicode_len();
    if n == 0 {
        return name.to_owned();
    }
    let mut out = dir.to_owned();
    if !ends_with_slash(dir) {
        out.append("/");
        proof {
            reveal_strlit("/");
        }
    }
    out.append(name);
    proof {
        if !(dir@.last() == slash()) {
            assert(out@ =~= dir@ + seq![slash()] + name@);
        }
    }
    out
}

fn trim_trailing_slashes_len(s: &str, n: usize) -> (r: usize)
    requires
        n <= s@.len(),
    ensures
        r as int == without_trailing_slashes(s@.subrange(0, n as int)).len(),
{
    let mut k = n;
    proof {
        assert(s@.subrange(0, n as int).subrange(0, k as int) =~= s@.subrange(0, k as int));
    }
    while k > 1 && s.get_char(k - 1) == '/'
        invariant
            k <= n <= s@.len(),
            without_trailing_slashes(s@.subrange(0, k as int)) == without_trailing_slashes(s@.subrange(0, n as int)),
        decreases k,
    {
        proof {
            assert(s@.subrange(0, k as int).drop_last() =~= s@.subrange(0, k - 1));
        }
        k = k - 1;
    }
    k
}

fn parent(path: &str) -> (r: Option<String>)
    ensures
        match r {
            Some(q) => parent_path(path@) == Some(q@),
            None => parent_path(path@) is None,
        },
{
    let n = path.unicode_len();
    if n == 0 {
        return None;
    }
    if n == 1 && path.get_char(0) == '/' {
        proof {
            assert(path@ =~= seq![slash()]);
        }
        return None;
    }
    proof {
        if path@ == seq![slash()] {
            assert(path@[0] == slash());
        }
        assert(path@.subrange(0, n as int) =~= path@);
    }
    let t_len = trim_trailing_slashes_len(path, n);
    let ghost t = without_trailing_slashes(path@);
    proof {
        lemma_without_trailing_slashes(path@);
    }
    let mut i = t_len;
    while i > 0 && path.get_char(i - 1) != '/'
        invariant
            t_len == t.len(),
            t == path@.subrange(0, t_len as int),
            t_len <= path@.len(),
            i <= t_len,
            last_slash(t, i as int) == last_slash(t, t_len as int),
        decreases i,
    {
        i = i - 1;
    }
    if i == 0 {
        return Some(String::new());
    }
    let slash_at = i - 1;
    if slash_at == 0 {
        let r = "/".to_owned();
        proof {
            reveal_strlit("/");
        }
        return Some(r);
    }
    let head_len = trim_trailing_slashes_len(path, slash_at);
    proof {
        assert(t.subrange(0, slash_at as int) =~= path@.subrange(0, slash_at as int));
        lemma_without_trailing_slashes(path@.subrange(0, slash_at as int));
        assert(without_trailing_slashes(path@.subrange(0, slash_at as int)) =~= path@.subrange(0, head_len as int));
    }
    Some(path.substring_char(0, head_len).to_owned())
}

/// The entry named by the first `true` among the answers for
/// `config.tsx`, `config.ts`, `config.jsx` and `config.js` in `dir`.
pub fn select_config_entry(dir: &str, found: [bool; 4]) -> (r: Option<String>)
    ensures
        match r {
            Some(e) => select_entry(dir@, found@) == Some(e@),
            None => select_entry(dir@, found@) is None,
        },
{
    proof {
        reveal_strlit("config.tsx");
        reveal_strlit("config.ts");
        reveal_strlit("config.jsx");
        reveal_strlit("config.js");
        assert("config.tsx"@ =~= config_entry_names()[0]);
        assert("config.ts"@ =~= config_entry_names()[1]);
        assert("config.jsx"@ =~= config_entry_names()[2]);
        assert("config.js"@ =~= config_entry_names()[3]);
    }
    if found[0] {
        Some(join_text(dir, "config.tsx"))
    } else if found[1] {
        Some(join_text(dir, "config.ts"))
    } else if found[2] {
        Some(join_text(dir, "config.jsx"))
    } else if found[3] {
        Some(join_text(dir, "config.js"))
    } else {
        None
    }
}

/// Asks `provider` for `config.tsx`, `config.ts`, `config.jsx` and
/// `config.js` in `dir`, in that order, until one is reported.
fn config_entry_in_dir<P: SourceProvider>(dir: &str, provider: &P) -> (r: Option<String>)
    ensures
        match r {
            Some(e) => config_entry_in(|p: Seq<char>| provider.spec_path_exists(p), dir@) == Some(e@),
            None => config_entry_in(|p: Seq<char>| provider.spec_path_exists(p), dir@) is None,
        },
{
    proof {
        reveal_strlit("config.tsx");
        reveal_strlit("config.ts");
        reveal_strlit("config.jsx");
        reveal_strlit("config.js");
        assert("config.tsx"@ =~= config_entry_names()[0]);
        assert("config.ts"@ =~= config_entry_names()[1]);
        assert("config.jsx"@ =~= config_entry_names()[2]);
        assert("config.js"@ =~= config_entry_names()[3]);
    }
    let mut found = [false, false, false, false];
    found[0] = provider.path_exists(join_text(dir, "config.tsx").as_str());
    if !found[0] {
        found[1] = provider.path_exists(join_text(dir, "config.ts").as_str());
        if !found[1] {
            found[2] = provider.path_exists(join_text(dir, "config.jsx").as_str());
            if !found[2] {
                found[3] = provider.path_exists(join_text(dir, "config.js").as_str());
            }
        }
    }
    select_config_entry(dir, found)
}

/// The configuration entry (`config.tsx`, `config.ts`, `config.jsx` or
/// `config.js`, asked for in that order) that the provider reports nearest
/// to `path`: in the path itself when it is a directory (`path_is_dir`,
/// which the caller reads from the file system), else in its parent, then
/// in each directory above; none when no directory holds one, or when a
/// file path has no parent.
pub fn discover_config_entry_for_path<P: SourceProvider>(path: &str, path_is_dir: bool, source_provider: &P) -> (r: Option<
    String,
>)
    ensures
        match r {
            Some(e) => spec_config_entry_for(|p: Seq<char>| source_provider.spec_path_exists(p), path@, path_is_dir)
                == Some(e@),
            None => spec_config_entry_for(|p: Seq<char>| source_provider.spec_path_exists(p), path@, path_is_dir) is None,
        },
        !path_is_dir && parent_path(path@) is None ==> r is None,
{
    let ghost present = |p: Seq<char>| source_provider.spec_path_exists(p);
    let mut current: String = if path_is_dir {
        path.to_owned()
    } else {
        match parent(path) {
            Some(dir) => dir,
            None => {
                return None;
            },
        }
    };
    let ghost goal = spec_config_entry_for(present, path@, path_is_dir);
    loop
        invariant
            present == (|p: Seq<char>| source_provider.spec_path_exists(p)),
            goal == spec_config_entry_for(present, path@, path_is_dir),
            goal == config_entry_from(present, current@),
        decreases current@.len(),
    {
        match config_entry_in_dir(current.as_str(), source_provider) {
            Some(entry) => {
                return Some(entry);
            },
            None => {},
        }
        proof {
            lemma_parent_shorter(current@);
        }
        match parent(current.as_str()) {
            Some(up) => {
                current = up;
            },
            None => {
                return None;
            },
        }
    }
}

} // verus!
