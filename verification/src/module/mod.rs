//! Module identifiers, module references and the errors of the module system.

pub mod dependency;

use crate::middleend::concurrent::SourceLocation;
use vstd::prelude::*;
use vstd::string::StringExecFns;

verus! {

/// An interned identifier (a module path segment, an item name).
#[derive(Debug, PartialEq, Eq, Hash)]
pub struct Symbol {
    name: String,
}

impl View for Symbol {
    type V = Seq<char>;

    closed spec fn view(&self) -> Seq<char> {
        self.name@
    }
}

impl Symbol {
    /// Makes the symbol that spells `s`.
    pub fn intern(s: &str) -> (r: Symbol)
        ensures
            r@ == s@,
    {
        Symbol { name: String::from_str(s) }
    }

    /// The text of the symbol.
    pub fn as_str(&self) -> (r: &str)
        ensures
            r@ == self@,
    {
        self.name.as_str()
    }

    /// Whether two symbols spell the same text.
    pub fn same(&self, other: &Symbol) -> (r: bool)
        ensures
            r == (self@ == other@),
    {
        self.name == other.name
    }
}

impl Clone for Symbol {
    fn clone(&self) -> (r: Self)
        ensures
            r@ == self@,
    {
        Symbol { name: self.name.clone() }
    }
}

/// The texts of a sequence of symbols.
pub open spec fn segs(v: Seq<Symbol>) -> Seq<Seq<char>> {
    v.map_values(|s: Symbol| s@)
}

/// Copies a list of symbols.
pub fn copy_symbols(v: &Vec<Symbol>) -> (r: Vec<Symbol>)
    ensures
        segs(r@) == segs(v@),
{
    let mut r: Vec<Symbol> = Vec::new();
    let mut i: usize = 0;
    while i < v.len()
        invariant
            i <= v.len(),
            r@.len() == i,
            forall|k: int| 0 <= k < i ==> r@[k]@ == v@[k]@,
        decreases v.len() - i,
    {
        r.push(v[i].clone());
        i = i + 1;
    }
    assert(segs(r@) =~= segs(v@));
    r
}

/// Whether two lists of symbols spell the same texts.
pub fn same_symbols(a: &Vec<Symbol>, b: &Vec<Symbol>) -> (r: bool)
    ensures
        r == (segs(a@) == segs(b@)),
{
    if a.len() != b.len() {
        assert(segs(a@).len() != segs(b@).len());
        return false;
    }
    let mut i: usize = 0;
    while i < a.len()
        invariant
            i <= a.len(),
            a.len() == b.len(),
            forall|k: int| 0 <= k < i ==> a@[k]@ == b@[k]@,
        decreases a.len() - i,
    {
        if !a[i].same(&b[i]) {
            assert(segs(a@)[i as int] != segs(b@)[i as int]);
            return false;
        }
        i = i + 1;
    }
    assert(segs(a@) =~= segs(b@));
    true
}

/// `std::path::Path::parent` applied to a path written as text: the text of the
/// parent path, or `None` for a root or an empty path.
pub uninterp spec fn path_parent_text(path: Seq<char>) -> Option<Seq<char>>;

/// `std::path::PathBuf::push` applied to a path written as text and one more
/// component: the text of the resulting path.
pub uninterp spec fn path_pushed_text(base: Seq<char>, segment: Seq<char>) -> Seq<char>;

/// `std::path::Path::file_name` applied to a path written as text: the text of
/// its last component, or `None` when the path ends in `..` or is a root.
pub uninterp spec fn path_file_name_text(path: Seq<char>) -> Option<Seq<char>>;

/// The text of an optional string.
pub open spec fn opt_text(o: Option<String>) -> Option<Seq<char>> {
    match o {
        Some(s) => Some(s@),
        None => None,
    }
}

/// Calls `std::path::Path::parent` on `path`; the result is the parent's text
/// exactly as `path_parent_text` names it.
#[verifier::external_body]
fn path_parent(path: &String) -> (r: Option<String>)
    ensures
        opt_text(r) == path_parent_text(path@),
{
    match std::path::Path::new(path.as_str()).parent() {
        Some(p) => Some(p.to_string_lossy().into_owned()),
        None => None,
    }
}

/// Calls `std::path::PathBuf::push` on a copy of `base` with `segment`; the
/// result is the text that `path_pushed_text` names.
#[verifier::external_body]
fn path_push(base: &String, segment: &str) -> (r: String)
    ensures
        r@ == path_pushed_text(base@, segment@),
{
    let mut p = std::path::PathBuf::from(base.as_str());
    p.push(segment);
    p.to_string_lossy().into_owned()
}

/// Calls `std::path::Path::file_name` on `path`; the result is the text that
/// `path_file_name_text` names.
#[verifier::external_body]
fn path_file_name(path: &String) -> (r: Option<String>)
    ensures
        opt_text(r) == path_file_name_text(path@),
{
    match std::path::Path::new(path.as_str()).file_name() {
        Some(n) => Some(n.to_string_lossy().into_owned()),
        None => None,
    }
}

/// Calls `std::path::Path::is_file`, which asks the file system whether `path`
/// names an existing regular file. The answer depends on the disk, so nothing
/// is stated of it.
#[verifier::external_body]
fn path_is_file(path: &String) -> (r: bool) {
    std::path::Path::new(path.as_str()).is_file()
}

/// A module identifier.
#[derive(Debug, PartialEq, Eq, Hash)]
pub enum ModuleId {
    /// An absolute path `::a::b`.
    Absolute(Vec<Symbol>),
    /// A path relative to another module, `a::b`.
    Relative(Vec<Symbol>),
    /// A file path.
    FilePath(String),
}

/// The value of a module identifier.
pub enum ModuleIdView {
    Absolute(Seq<Seq<char>>),
    Relative(Seq<Seq<char>>),
    FilePath(Seq<char>),
}

impl View for ModuleId {
    type V = ModuleIdView;

    open spec fn view(&self) -> ModuleIdView {
        match self {
            ModuleId::Absolute(p) => ModuleIdView::Absolute(segs(p@)),
            ModuleId::Relative(p) => ModuleIdView::Relative(segs(p@)),
            ModuleId::FilePath(p) => ModuleIdView::FilePath(p@),
        }
    }
}

impl Clone for ModuleId {
    fn clone(&self) -> (r: Self)
        ensures
            r@ == self@,
    {
        match self {
            ModuleId::Absolute(p) => ModuleId::Absolute(copy_symbols(p)),
            ModuleId::Relative(p) => ModuleId::Relative(copy_symbols(p)),
            ModuleId::FilePath(p) => ModuleId::FilePath(p.clone()),
        }
    }
}

/// The value of an optional module identifier.
pub open spec fn opt_id(o: Option<ModuleId>) -> Option<ModuleIdView> {
    match o {
        Some(m) => Some(m@),
        None => None,
    }
}

/// The value of an optional symbol.
pub open spec fn opt_sym(o: Option<Symbol>) -> Option<Seq<char>> {
    match o {
        Some(s) => Some(s@),
        None => None,
    }
}

/// The parent of a module: the path without its last segment; `None` for an
/// empty path and for a file path without a parent.
pub open spec fn parent_of(id: ModuleIdView) -> Option<ModuleIdView> {
    match id {
        ModuleIdView::Absolute(p) => if p.len() == 0 {
            None
        } else {
            Some(ModuleIdView::Absolute(p.drop_last()))
        },
        ModuleIdView::Relative(p) => if p.len() == 0 {
            None
        } else {
            Some(ModuleIdView::Relative(p.drop_last()))
        },
        ModuleIdView::FilePath(p) => match path_parent_text(p) {
            Some(q) => Some(ModuleIdView::FilePath(q)),
            None => None,
        },
    }
}

/// The child module `name` of a module.
pub open spec fn child_of(id: ModuleIdView, name: Seq<char>) -> ModuleIdView {
    match id {
        ModuleIdView::Absolute(p) => ModuleIdView::Absolute(p.push(name)),
        ModuleIdView::Relative(p) => ModuleIdView::Relative(p.push(name)),
        ModuleIdView::FilePath(p) => ModuleIdView::FilePath(path_pushed_text(p, name)),
    }
}

/// The last segment of a module identifier.
pub open spec fn last_segment_of(id: ModuleIdView) -> Option<Seq<char>> {
    match id {
        ModuleIdView::Absolute(p) => if p.len() == 0 {
            None
        } else {
            Some(p.last())
        },
        ModuleIdView::Relative(p) => if p.len() == 0 {
            None
        } else {
            Some(p.last())
        },
        ModuleIdView::FilePath(p) => path_file_name_text(p),
    }
}

/// The parent of a child of a path identifier is the identifier itself, and
/// the child's last segment is the name it was made with.
pub proof fn lemma_child_parent(id: ModuleIdView, name: Seq<char>)
    requires
        !(id is FilePath),
    ensures
        parent_of(child_of(id, name)) == Some(id),
        last_segment_of(child_of(id, name)) == Some(name),
{
    match id {
        ModuleIdView::Absolute(p) => {
            assert(p.push(name).drop_last() =~= p);
        },
        ModuleIdView::Relative(p) => {
            assert(p.push(name).drop_last() =~= p);
        },
        ModuleIdView::FilePath(_) => {},
    }
}

/// A file path extended by each segment in turn.
pub open spec fn push_all(dir: Seq<char>, s: Seq<Seq<char>>) -> Seq<char>
    decreases s.len(),
{
    if s.len() == 0 {
        dir
    } else {
        path_pushed_text(push_all(dir, s.drop_last()), s.last())
    }
}

/// Against a base that names an existing file, a relative path resolves
/// as it does against the directory that holds the file: the file's parent
/// path, taken as a directory.
pub proof fn lemma_resolve_in_file_directory(p: Seq<Seq<char>>, b: Seq<char>)
    ensures
        path_parent_text(b) matches Some(q) ==> resolved_against(
            ModuleIdView::Relative(p),
            ModuleIdView::FilePath(b),
            true,
        ) == resolved_against(ModuleIdView::Relative(p), ModuleIdView::FilePath(q), false),
{
}

/// Against a base that is a directory, a relative path resolves by pushing
/// its segments onto the base one by one: one more segment is one more push
/// onto the result without it, and no segments leave the base as it is.
pub proof fn lemma_resolve_pushes_segments(p: Seq<Seq<char>>, seg: Seq<char>, b: Seq<char>)
    ensures
        resolved_against(ModuleIdView::Relative(Seq::empty()), ModuleIdView::FilePath(b), false) == Some(
            ModuleIdView::FilePath(b),
        ),
        resolved_against(ModuleIdView::Relative(p.push(seg)), ModuleIdView::FilePath(b), false) == match resolved_against(
            ModuleIdView::Relative(p),
            ModuleIdView::FilePath(b),
            false,
        ) {
            Some(ModuleIdView::FilePath(d)) => Some(ModuleIdView::FilePath(path_pushed_text(d, seg))),
            other => other,
        },
{
    assert(p.push(seg).drop_last() =~= p);
}

/// Against an absolute base, a relative path is appended to it, so resolving
/// a path in two parts is resolving the second part against the first
/// resolved; an absolute or file identifier resolves to itself.
pub proof fn lemma_resolve_absolute(p1: Seq<Seq<char>>, p2: Seq<Seq<char>>, b: Seq<Seq<char>>, base: ModuleIdView, f: bool)
    ensures
        resolved_against(ModuleIdView::Relative(p1 + p2), ModuleIdView::Absolute(b), f) == match resolved_against(
            ModuleIdView::Relative(p1),
            ModuleIdView::Absolute(b),
            f,
        ) {
            Some(ModuleIdView::Absolute(d)) => resolved_against(ModuleIdView::Relative(p2), ModuleIdView::Absolute(d), f),
            other => other,
        },
        resolved_against(ModuleIdView::Absolute(p1), base, f) == Some(ModuleIdView::Absolute(p1)),
        resolved_against(ModuleIdView::Relative(p1), ModuleIdView::Relative(b), f) is None,
{
    assert(b + (p1 + p2) =~= (b + p1) + p2);
}

/// Errors of the module system.
#[derive(Debug)]
pub enum ModuleSystemError {
    /// A relative path can only be resolved against an absolute path.
    RelativeAgainstRelative,
    /// A circular dependency, listed from the module where the cycle is entered.
    CircularDependency(Vec<ModuleId>),
    /// A topological order was asked of a graph with a cycle.
    CycleBlocksOrdering,
}

/// Module identifiers written out and joined by ` -> `.
pub open spec fn joined_by_arrows(ids: Seq<ModuleIdView>) -> Seq<char>
    decreases ids.len(),
{
    if ids.len() == 0 {
        Seq::empty()
    } else if ids.len() == 1 {
        id_text(ids[0])
    } else {
        joined_by_arrows(ids.drop_last()) + " -> "@ + id_text(ids.last())
    }
}

impl ModuleSystemError {
    /// The message of the error.
    pub open spec fn message_text(&self) -> Seq<char> {
        match self {
            ModuleSystemError::RelativeAgainstRelative => "相対パスは絶対パスを基準にしてのみ解決できます"@,
            ModuleSystemError::CircularDependency(c) => "循環依存が検出されました: "@ + joined_by_arrows(
                c@.map_values(|m: ModuleId| m@),
            ),
            ModuleSystemError::CycleBlocksOrdering => "循環依存が存在するためトポロジカルソートができません"@,
        }
    }

    /// The message of the error: for a circular dependency, the modules of
    /// the cycle joined by ` -> `.
    pub fn message(&self) -> (r: String)
        ensures
            r@ == self.message_text(),
    {
        match self {
            ModuleSystemError::RelativeAgainstRelative => String::from_str(
                "相対パスは絶対パスを基準にしてのみ解決できます",
            ),
            ModuleSystemError::CircularDependency(c) => {
                let ghost ids = c@.map_values(|m: ModuleId| m@);
                let mut r = String::from_str("循環依存が検出されました: ");
                let ghost start = r@;
                let mut i: usize = 0;
                while i < c.len()
                    invariant
                        i <= c@.len(),
                        ids == c@.map_values(|m: ModuleId| m@),
                        r@ == start + joined_by_arrows(ids.take(i as int)),
                    decreases c@.len() - i,
                {
                    let t = c[i].to_string();
                    if i > 0 {
                        r.append(" -> ");
                    }
                    r.append(t.as_str());
                    proof {
                        let next = ids.take(i + 1);
                        assert(next.drop_last() =~= ids.take(i as int));
                        assert(next.last() == c@[i as int]@);
                        if i == 0 {
                            assert(ids.take(0) =~= Seq::<ModuleIdView>::empty());
                        }
                    }
                    i = i + 1;
                }
                proof {
                    assert(ids.take(c@.len() as int) =~= ids);
                }
                r
            },
            ModuleSystemError::CycleBlocksOrdering => String::from_str(
                "循環依存が存在するためトポロジカルソートができません",
            ),
        }
    }
}

/// What `resolve_relative` gives for `id` against `base`, given whether `base`
/// names an existing file.
pub open spec fn resolved_against(
    id: ModuleIdView,
    base: ModuleIdView,
    base_is_file: bool,
) -> Option<ModuleIdView> {
    match (id, base) {
        (ModuleIdView::Relative(p), ModuleIdView::Absolute(b)) => Some(ModuleIdView::Absolute(b + p)),
        (ModuleIdView::Relative(_), ModuleIdView::Relative(_)) => None,
        (ModuleIdView::Relative(p), ModuleIdView::FilePath(b)) => {
            let dir = if base_is_file {
                match path_parent_text(b) {
                    Some(q) => q,
                    None => b,
                }
            } else {
                b
            };
            Some(ModuleIdView::FilePath(push_all(dir, p)))
        },
        _ => Some(id),
    }
}

/// Segments joined by a separator.
pub open spec fn join_text(s: Seq<Seq<char>>, sep: Seq<char>) -> Seq<char>
    decreases s.len(),
{
    if s.len() == 0 {
        Seq::empty()
    } else if s.len() == 1 {
        s[0]
    } else {
        join_text(s.drop_last(), sep) + sep + s.last()
    }
}

/// How a module identifier is written: `::a::b` for an absolute path, `a::b`
/// for a relative one, the path itself for a file path.
pub open spec fn id_text(id: ModuleIdView) -> Seq<char> {
    match id {
        ModuleIdView::Absolute(p) => "::"@ + join_text(p, "::"@),
        ModuleIdView::Relative(p) => join_text(p, "::"@),
        ModuleIdView::FilePath(p) => p,
    }
}

/// Writes segments joined by `::`.
fn join_symbols(path: &Vec<Symbol>) -> (r: String)
    ensures
        r@ == join_text(segs(path@), "::"@),
{
    let mut r = String::new();
    let mut i: usize = 0;
    while i < path.len()
        invariant
            i <= path.len(),
            r@ == join_text(segs(path@).take(i as int), "::"@),
        decreases path.len() - i,
    {
        let ghost before = segs(path@).take(i as int);
        assert(segs(path@).take(i + 1).drop_last() =~= before);
        if i > 0 {
            r.append("::");
        }
        r.append(path[i].as_str());
        proof {
            if i == 0 {
                assert(segs(path@).take(1) =~= seq![path@[0]@]);
                assert(r@ =~= path@[0]@);
            }
        }
        i = i + 1;
    }
    assert(segs(path@).take(path.len() as int) =~= segs(path@));
    r
}

impl ModuleId {
    /// How the identifier is written.
    pub fn to_string(&self) -> (r: String)
        ensures
            r@ == id_text(self@),
    {
        match self {
            ModuleId::Absolute(path) => {
                let mut r = String::from_str("::");
                let j = join_symbols(path);
                r.append(j.as_str());
                r
            },
            ModuleId::Relative(path) => join_symbols(path),
            ModuleId::FilePath(p) => p.clone(),
        }
    }

    /// The identifier of an absolute path.
    pub fn from_absolute_path(path: Vec<Symbol>) -> (r: Self)
        ensures
            r@ == ModuleIdView::Absolute(segs(path@)),
    {
        ModuleId::Absolute(path)
    }

    /// The identifier of a relative path.
    pub fn from_relative_path(path: Vec<Symbol>) -> (r: Self)
        ensures
            r@ == ModuleIdView::Relative(segs(path@)),
    {
        ModuleId::Relative(path)
    }

    /// The identifier of a file path.
    pub fn from_file_path(path: &str) -> (r: Self)
        ensures
            r@ == ModuleIdView::FilePath(path@),
    {
        ModuleId::FilePath(String::from_str(path))
    }

    /// Whether two identifiers are equal.
    pub fn same(&self, other: &ModuleId) -> (r: bool)
        ensures
            r == (self@ == other@),
    {
        match (self, other) {
            (ModuleId::Absolute(a), ModuleId::Absolute(b)) => same_symbols(a, b),
            (ModuleId::Relative(a), ModuleId::Relative(b)) => same_symbols(a, b),
            (ModuleId::FilePath(a), ModuleId::FilePath(b)) => *a == *b,
            _ => false,
        }
    }

    /// The parent module's identifier.
    pub fn parent(&self) -> (r: Option<Self>)
        ensures
            opt_id(r) == parent_of(self@),
    {
        match self {
            ModuleId::Absolute(path) => {
                if path.len() == 0 {
                    None
                } else {
                    let mut p = copy_symbols(path);
                    p.pop();
                    assert(segs(p@) =~= segs(path@).drop_last());
                    Some(ModuleId::Absolute(p))
                }
            },
            ModuleId::Relative(path) => {
                if path.len() == 0 {
                    None
                } else {
                    let mut p = copy_symbols(path);
                    p.pop();
                    assert(segs(p@) =~= segs(path@).drop_last());
                    Some(ModuleId::Relative(p))
                }
            },
            ModuleId::FilePath(path) => {
                match path_parent(path) {
                    Some(q) => Some(ModuleId::FilePath(q)),
                    None => None,
                }
            },
        }
    }

    /// The identifier of the child module `name`.
    pub fn child(&self, name: Symbol) -> (r: Self)
        ensures
            r@ == child_of(self@, name@),
    {
        match self {
            ModuleId::Absolute(path) => {
                let mut p = copy_symbols(path);
                let ghost n = name@;
                p.push(name);
                assert(segs(p@) =~= segs(path@).push(n));
                ModuleId::Absolute(p)
            },
            ModuleId::Relative(path) => {
                let mut p = copy_symbols(path);
                let ghost n = name@;
                p.push(name);
                assert(segs(p@) =~= segs(path@).push(n));
                ModuleId::Relative(p)
            },
            ModuleId::FilePath(path) => ModuleId::FilePath(path_push(path, name.as_str())),
        }
    }

    /// The last segment of the identifier.
    pub fn last_segment(&self) -> (r: Option<Symbol>)
        ensures
            opt_sym(r) == last_segment_of(self@),
    {
        match self {
            ModuleId::Absolute(path) => {
                if path.len() == 0 {
                    None
                } else {
                    Some(path[path.len() - 1].clone())
                }
            },
            ModuleId::Relative(path) => {
                if path.len() == 0 {
                    None
                } else {
                    Some(path[path.len() - 1].clone())
                }
            },
            ModuleId::FilePath(path) => {
                match path_file_name(path) {
                    Some(n) => Some(Symbol::intern(n.as_str())),
                    None => None,
                }
            },
        }
    }

    /// Resolves this identifier against `base`, given whether `base` names an
    /// existing file: a relative path is appended to an absolute base, or
    /// pushed onto the directory of a file-path base; a relative base is an
    /// error; any other identifier resolves to itself.
    pub fn resolve_relative_given(&self, base: &ModuleId, base_is_file: bool) -> (r: Result<
        Self,
        ModuleSystemError,
    >)
        ensures
            match resolved_against(self@, base@, base_is_file) {
                Some(v) => r matches Ok(m) && m@ == v,
                None => r matches Err(ModuleSystemError::RelativeAgainstRelative),
            },
    {
        match (self, base) {
            (ModuleId::Relative(path), ModuleId::Absolute(base_path)) => {
                let mut resolved = copy_symbols(base_path);
                let mut i: usize = 0;
                while i < path.len()
                    invariant
                        i <= path.len(),
                        segs(resolved@) == segs(base_path@) + segs(path@).take(i as int),
                    decreases path.len() - i,
                {
                    let ghost before = segs(resolved@);
                    resolved.push(path[i].clone());
                    assert(segs(resolved@) =~= before.push(path@[i as int]@));
                    assert(segs(path@).take(i + 1) =~= segs(path@).take(i as int).push(
                        path@[i as int]@,
                    ));
                    i = i + 1;
                }
                assert(segs(path@).take(path.len() as int) =~= segs(path@));
                Ok(ModuleId::Absolute(resolved))
            },
            (ModuleId::Relative(_), ModuleId::Relative(_)) => Err(
                ModuleSystemError::RelativeAgainstRelative,
            ),
            (ModuleId::Relative(path), ModuleId::FilePath(base_path)) => {
                let mut dir = base_path.clone();
                if base_is_file {
                    match path_parent(base_path) {
                        Some(q) => {
                            dir = q;
                        },
                        None => {},
                    }
                }
                let ghost d0 = dir@;
                let mut i: usize = 0;
                while i < path.len()
                    invariant
                        i <= path.len(),
                        dir@ == push_all(d0, segs(path@).take(i as int)),
                    decreases path.len() - i,
                {
                    dir = path_push(&dir, path[i].as_str());
                    assert(segs(path@).take(i + 1).drop_last() =~= segs(path@).take(i as int));
                    i = i + 1;
                }
                assert(segs(path@).take(path.len() as int) =~= segs(path@));
                Ok(ModuleId::FilePath(dir))
            },
            (_, _) => Ok(self.clone()),
        }
    }

    /// Resolves this identifier against `base`; whether a file-path base names
    /// an existing file is asked of the file system.
    pub fn resolve_relative(&self, base: &ModuleId) -> (r: Result<Self, ModuleSystemError>)
        ensures
            exists|f: bool|
                match #[trigger] resolved_against(self@, base@, f) {
                    Some(v) => r matches Ok(m) && m@ == v,
                    None => r matches Err(ModuleSystemError::RelativeAgainstRelative),
                },
    {
        let is_file = match base {
            ModuleId::FilePath(p) => path_is_file(p),
            _ => false,
        };
        self.resolve_relative_given(base, is_file)
    }
}

/// A reference to a module.
#[derive(Debug, PartialEq, Eq)]
pub enum ModuleRef {
    /// By identifier.
    Direct(ModuleId),
    /// By position in the module manager.
    Index(usize),
}

/// The visibility of an item.
#[derive(Debug, Clone, Copy, PartialEq, Eq, Structural)]
pub enum Visibility {
    Public,
    Private,
    Protected,
    Internal,
}

/// An import into a module.
#[derive(Debug)]
pub struct Import {
    /// The module imported from.
    pub source: ModuleRef,
    /// What is imported.
    pub items: ImportItems,
    /// The visibility of what the import brings in.
    pub visibility: Visibility,
    /// The name the imported module is known by, where it is renamed.
    pub alias: Option<Symbol>,
    /// Where the import is written.
    pub location: SourceLocation,
}

/// What an import brings in.
#[derive(Debug)]
pub enum ImportItems {
    /// Everything the source module exports.
    All,
    /// The listed items.
    Specific(Vec<ImportItem>),
}

/// One imported item.
#[derive(Debug)]
pub struct ImportItem {
    /// The item's name.
    pub name: Symbol,
    /// The name the item is known by, where it is renamed.
    pub alias: Option<Symbol>,
    /// The item's visibility.
    pub visibility: Visibility,
    /// Where the item is written.
    pub location: SourceLocation,
}

} // verus!
