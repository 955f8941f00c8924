//! The named scopes that enclose a place in a file, and the ids that symbols
//! get from them.
use crate::text;
use vstd::prelude::*;
use vstd::string::*;

verus! {

/// The scopes that are left when the innermost of `scopes` ends.
pub open spec fn left(scopes: Seq<Seq<char>>) -> Seq<Seq<char>> {
    if scopes.len() == 0 {
        scopes
    } else {
        scopes.drop_last()
    }
}

/// The scopes that enclose a place, the outermost first.
#[derive(Debug)]
pub struct ScopePath {
    segments: Vec<String>,
}

impl View for ScopePath {
    type V = Seq<Seq<char>>;

    closed spec fn view(&self) -> Seq<Seq<char>> {
        text::views(self.segments@)
    }
}

impl ScopePath {
    /// No enclosing scope.
    pub fn new() -> (path: Self)
        ensures
            path@ == Seq::<Seq<char>>::empty(),
    {
        let path = ScopePath { segments: Vec::new() };
        assert(path@ =~= Seq::<Seq<char>>::empty());
        path
    }

    /// Enters a scope.
    pub fn push(&mut self, name: &str)
        ensures
            final(self)@ == old(self)@.push(name@),
    {
        self.segments.push(name.to_string());
        assert(self@ =~= old(self)@.push(name@));
    }

    /// Leaves the innermost scope, if there is one.
    pub fn pop(&mut self)
        ensures
            final(self)@ == left(old(self)@),
    {
        let _innermost = self.segments.pop();
        assert(self@ =~= left(old(self)@));
    }

    /// How many scopes enclose the place.
    pub fn depth(&self) -> (n: usize)
        ensures
            n == self@.len(),
    {
        self.segments.len()
    }

    /// Whether no scope encloses the place.
    pub fn is_top_level(&self) -> (r: bool)
        ensures
            r == (self@.len() == 0),
    {
        self.depth() == 0
    }

    /// The names of the scopes with `::` between them; nothing at top level.
    pub fn as_str(&self) -> (s: String)
        ensures
            s@ == text::join(self@, "::"@),
    {
        text::join_with(self.segments.as_slice(), "::")
    }
}

impl Clone for ScopePath {
    fn clone(&self) -> (copy: Self)
        ensures
            copy@ == self@,
    {
        let copy = ScopePath { segments: self.segments.clone() };
        assert(copy@ =~= self@);
        copy
    }
}

impl Default for ScopePath {
    fn default() -> (path: Self)
        ensures
            path@ == Seq::<Seq<char>>::empty(),
    {
        ScopePath::new()
    }
}

/// Holds a scope open: it is entered when the guard is made, and left when the
/// guard goes, on whichever way. While it is held, the path is borrowed and is
/// read through the guard.
pub struct ScopeGuard<'a> {
    /// The path with the scope entered.
    entered: ScopePath,
    /// The path that the scope is entered in. It stays as it is, so nothing
    /// has to be put back.
    outer: std::marker::PhantomData<&'a mut ScopePath>,
}

impl<'a> ScopeGuard<'a> {
    /// The scopes that enclose the place while the guard is held.
    pub closed spec fn scopes(&self) -> Seq<Seq<char>> {
        self.entered@
    }

    /// Enters a scope. Once the guard is gone, the path is what it was.
    pub fn enter(path: &'a mut ScopePath, name: &str) -> (guard: Self)
        ensures
            guard.scopes() == old(path)@.push(name@),
            *final(path) == *old(path),
    {
        let mut entered = path.clone();
        entered.push(name);
        ScopeGuard { entered, outer: std::marker::PhantomData }
    }

    /// How many scopes enclose the place.
    pub fn depth(&self) -> (n: usize)
        ensures
            n == self.scopes().len(),
    {
        self.entered.depth()
    }
}

impl<'a> std::ops::Deref for ScopeGuard<'a> {
    type Target = ScopePath;

    fn deref(&self) -> (path: &ScopePath)
        ensures
            path@ == self.scopes(),
    {
        &self.entered
    }
}

/// The id of a symbol: its file, the scopes that enclose it, its name and
/// its kind, with `::` between them.
pub open spec fn structural_id(
    file: Seq<char>,
    scopes: Seq<Seq<char>>,
    name: Seq<char>,
    kind: Seq<char>,
) -> Seq<char> {
    if scopes.len() == 0 {
        file + "::"@ + name + "::"@ + kind
    } else {
        file + "::"@ + text::join(scopes, "::"@) + "::"@ + name + "::"@ + kind
    }
}

/// The id of a symbol.
pub fn build_structural_id(file_path: &str, scope_path: &ScopePath, name: &str, kind: &str) -> (id:
    String)
    ensures
        id@ == structural_id(file_path@, scope_path@, name@, kind@),
{
    let mut id = file_path.to_string();
    id.append("::");
    if !scope_path.is_top_level() {
        let scopes = scope_path.as_str();
        id.append(&scopes);
        id.append("::");
    }
    id.append(name);
    id.append("::");
    id.append(kind);
    id
}

/// Leaving a scope undoes entering it.
pub proof fn law_leaving_undoes_entering(scopes: Seq<Seq<char>>, name: Seq<char>)
    ensures
        left(scopes.push(name)) == scopes,
{
    assert(scopes.push(name).drop_last() =~= scopes);
}

/// A scope is written after those around it, with `::` between them; at top
/// level it stands alone.
pub proof fn law_entering_appends_a_name(scopes: Seq<Seq<char>>, name: Seq<char>)
    ensures
        text::join(scopes.push(name), "::"@) == if scopes.len() == 0 {
            name
        } else {
            text::join(scopes, "::"@) + "::"@ + name
        },
{
    assert(scopes.push(name).drop_last() =~= scopes);
}

/// Symbols of the same file, name and kind have different ids where the
/// scopes that enclose them are written differently.
pub proof fn law_ids_tell_scopes_apart(
    file: Seq<char>,
    name: Seq<char>,
    kind: Seq<char>,
    s: Seq<Seq<char>>,
    t: Seq<Seq<char>>,
)
    requires
        s.len() > 0,
        t.len() > 0 ==> text::join(s, "::"@) != text::join(t, "::"@),
    ensures
        structural_id(file, s, name, kind) != structural_id(file, t, name, kind),
{
    reveal_strlit("::");
    let a = structural_id(file, s, name, kind);
    let b = structural_id(file, t, name, kind);
    let x = text::join(s, "::"@);
    let start = file.len() as int + 2;
    let rest = name.len() as int + kind.len() + 4;
    assert(a.len() == start + x.len() + rest);
    assert(a.subrange(start, start + x.len()) =~= x);
    if t.len() == 0 {
        assert(b.len() == start + rest - 2);
    } else {
        let y = text::join(t, "::"@);
        assert(b.len() == start + y.len() + rest);
        assert(b.subrange(start, start + y.len()) =~= y);
    }
}

} // verus!
