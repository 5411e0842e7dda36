//! The catalog's vocabulary: access modes, grant shapes, resolved file grants, and
//! the path relations every rule shares.

use vstd::prelude::*;

use crate::text;

verus! {

broadcast use vstd::string::group_string_axioms;

/// The access a file grant hands out.
#[derive(Debug, Clone, Copy, PartialEq, Eq, Structural)]
pub enum Access {
    /// Read only.
    Ro,
    /// Read and write.
    Rw,
}

impl Access {
    /// Read only.
    pub const RO: Access = Access::Ro;

    /// Read and write.
    pub const RW: Access = Access::Rw;

    /// The canonical token of an access.
    pub open spec fn text(self) -> Seq<char> {
        match self {
            Access::Ro => "ro"@,
            Access::Rw => "rw"@,
        }
    }

    /// The access that two grants on one path add up to.
    pub open spec fn joined(self, other: Access) -> Access {
        if self is Rw {
            self
        } else {
            other
        }
    }

    /// The canonical token (`ro`, `rw`).
    pub fn as_str(self) -> (r: &'static str)
        ensures
            r@ == self.text(),
    {
        match self {
            Access::Ro => "ro",
            Access::Rw => "rw",
        }
    }

    /// The access that two grants on one path add up to.
    pub fn union(self, other: Access) -> (r: Access)
        ensures
            r == self.joined(other),
    {
        match self {
            Access::Rw => self,
            Access::Ro => other,
        }
    }

    /// Whether the access includes writing.
    pub fn writes(self) -> (r: bool)
        ensures
            r == (self is Rw),
    {
        match self {
            Access::Rw => true,
            Access::Ro => false,
        }
    }
}

/// What a file grant is put on.
#[derive(Debug, Clone, Copy, PartialEq, Eq, Structural)]
pub enum Shape {
    /// A directory.
    Dir,
    /// One concrete file.
    File,
    /// A glob pattern.
    Pattern,
}

/// The advisory risk class of a permission.
#[derive(Debug, Clone, Copy, PartialEq, Eq, Structural)]
pub enum Risk {
    /// What it hands out leads no further.
    Contained,
    /// There is a way from what it hands out to root.
    EscalationCapable,
}

/// A file grant with every parameter filled in.
#[derive(Debug, PartialEq, Eq)]
pub struct ResolvedFileGrant {
    /// The granted path.
    pub path: String,
    /// The access it hands out.
    pub access: Access,
    /// Whether it reaches below the path.
    pub recursive: bool,
    /// What the path is.
    pub shape: Shape,
}

/// The contents of a [`ResolvedFileGrant`].
#[verifier::ext_equal]
pub struct GrantView {
    /// The granted path.
    pub path: Seq<char>,
    /// The access it hands out.
    pub access: Access,
    /// Whether it reaches below the path.
    pub recursive: bool,
    /// What the path is.
    pub shape: Shape,
}

impl View for ResolvedFileGrant {
    type V = GrantView;

    open spec fn view(&self) -> GrantView {
        GrantView {
            path: self.path@,
            access: self.access,
            recursive: self.recursive,
            shape: self.shape,
        }
    }
}

impl Clone for ResolvedFileGrant {
    fn clone(&self) -> (r: Self)
        ensures
            r@ == self@,
    {
        ResolvedFileGrant {
            path: self.path.clone(),
            access: self.access,
            recursive: self.recursive,
            shape: self.shape,
        }
    }
}

/// The contents of a list of grants.
pub open spec fn grant_views(v: Seq<ResolvedFileGrant>) -> Seq<GrantView> {
    v.map_values(|g: ResolvedFileGrant| g@)
}

impl GrantView {
    /// Whether the grant covers `path`: its own path, or one below it where it is
    /// recursive.
    pub open spec fn covers(self, path: Seq<char>) -> bool {
        self.path == path || (self.recursive && at_or_under(self.path, path))
    }
}

// ---------------------------------------------------------------------------
// Paths
// ---------------------------------------------------------------------------

/// Whether `path` is `prefix` itself or lies below it, on a component boundary.
/// Slashes at the end of `prefix` do not count, so `/` has every absolute path below
/// it.
pub open spec fn at_or_under(prefix: Seq<char>, path: Seq<char>) -> bool {
    let p = text::trim_end_char(prefix, '/');
    path == p || text::starts_with(path, p.push('/'))
}

/// Whether `path` is at or under some root.
pub open spec fn under_some(roots: Seq<Seq<char>>, path: Seq<char>) -> bool {
    exists|i: int| 0 <= i < roots.len() && at_or_under(#[trigger] roots[i], path)
}

/// The directory that holds `path`: `/` for a top-level path, `path` itself where it
/// has no slash.
pub open spec fn parent_of(path: Seq<char>) -> Seq<char> {
    let i = text::last_index(path, '/');
    if i < 0 {
        path
    } else if i == 0 {
        seq!['/']
    } else {
        path.take(i)
    }
}

/// The directory that holds a path is shorter than the path, unless it is the path.
pub proof fn lemma_parent_shorter(path: Seq<char>)
    ensures
        parent_of(path) == path || parent_of(path).len() < path.len(),
{
    text::lemma_last_index(path, '/');
    if text::last_index(path, '/') == 0 && path.len() == 1 {
        assert(path =~= seq!['/']);
    }
}

/// What follows the last slash of `path`.
pub open spec fn base_of(path: Seq<char>) -> Seq<char> {
    path.skip(text::last_index(path, '/') + 1)
}

/// Whether `path` starts at the filesystem root.
pub open spec fn is_absolute(path: Seq<char>) -> bool {
    path.len() > 0 && path[0] == '/'
}

/// Whether the segment at position `i` of a split path names a component: empty
/// segments do not, nor does `.` except in front of a relative path.
pub open spec fn names_component(segs: Seq<Seq<char>>, i: int) -> bool {
    segs[i].len() > 0 && (segs[i] != seq!['.'] || i == 0)
}

/// The first `n` segments of a split path, those that name no component left out.
pub open spec fn components_upto(segs: Seq<Seq<char>>, n: nat) -> Seq<Seq<char>>
    decreases n,
{
    if n == 0 {
        seq![]
    } else if names_component(segs, n - 1) {
        components_upto(segs, (n - 1) as nat).push(segs[n - 1])
    } else {
        components_upto(segs, (n - 1) as nat)
    }
}

/// The components of `path` after its root, if it has one.
pub open spec fn components(path: Seq<char>) -> Seq<Seq<char>> {
    let segs = text::split_on(path, '/');
    components_upto(segs, segs.len())
}

/// Whether two texts name the same path: both absolute or neither, with equal
/// components.
pub open spec fn same_path(a: Seq<char>, b: Seq<char>) -> bool {
    is_absolute(a) == is_absolute(b) && components(a) == components(b)
}

/// Whether `path` names `base` or something below it, component by component.
pub open spec fn within(base: Seq<char>, path: Seq<char>) -> bool {
    let b = components(base);
    let p = components(path);
    is_absolute(base) == is_absolute(path) && b.len() <= p.len() && p.take(b.len() as int) == b
}

/// `rel` below `base`; `rel` itself where it is absolute.
pub open spec fn join_path(base: Seq<char>, rel: Seq<char>) -> Seq<char> {
    if is_absolute(rel) {
        rel
    } else if base.len() == 0 || base.last() == '/' {
        base + rel
    } else {
        base + "/"@ + rel
    }
}

/// `path` without the slashes it starts with.
pub open spec fn strip_root(path: Seq<char>) -> Seq<char>
    decreases path.len(),
{
    if path.len() > 0 && path[0] == '/' {
        strip_root(path.skip(1))
    } else {
        path
    }
}

/// Whether `path` is at or under `prefix`, on a path-component boundary.
pub fn path_at_or_under(prefix: &str, path: &str) -> (r: bool)
    ensures
        r == at_or_under(prefix@, path@),
{
    let p = text::chars_of(prefix);
    let q = text::chars_of(path);
    let p = text::trim_back_char(p.as_slice(), '/');
    if text::same_chars(p, q.as_slice()) {
        return true;
    }
    let n = p.len();
    proof {
        let t = text::trim_end_char(prefix@, '/');
        if text::starts_with(path@, t.push('/')) {
            assert(path@.take(n as int + 1)[n as int] == '/');
            assert(path@.take(n as int) == path@.take(n as int + 1).take(n as int));
            assert(t.push('/').take(n as int) == t);
        }
    }
    if q.len() > n && q[n] == '/' && text::same_chars(p, &q.as_slice()[0..n]) {
        proof {
            assert(path@.take(n as int + 1) == path@.take(n as int).push('/'));
        }
        true
    } else {
        false
    }
}

/// Whether `path` is at or under one of `roots`.
pub fn path_under_some(roots: &[String], path: &str) -> (r: bool)
    ensures
        r == under_some(text::views(roots@), path@),
{
    let mut i: usize = 0;
    while i < roots.len()
        invariant
            i <= roots@.len(),
            forall|j: int| 0 <= j < i ==> !at_or_under(#[trigger] text::views(roots@)[j], path@),
        decreases roots@.len() - i,
    {
        if path_at_or_under(&roots[i], path) {
            proof {
                assert(at_or_under(text::views(roots@)[i as int], path@));
            }
            return true;
        }
        i += 1;
    }
    false
}

/// The directory that holds `path`.
pub fn parent_dir(path: &str) -> (r: String)
    ensures
        r@ == parent_of(path@),
{
    let cs = text::chars_of(path);
    match text::rfind_char(cs.as_slice(), '/') {
        None => path.to_owned(),
        Some(i) => {
            if i == 0 {
                let mut s = String::new();
                s.push('/');
                proof {
                    assert(s@ == seq!['/']);
                }
                s
            } else {
                text::string_of(&cs.as_slice()[0..i])
            }
        },
    }
}

/// What follows the last slash of `path`.
pub fn basename(path: &str) -> (r: String)
    ensures
        r@ == base_of(path@),
{
    let cs = text::chars_of(path);
    let n = cs.len();
    match text::rfind_char(cs.as_slice(), '/') {
        None => {
            proof {
                assert(path@.skip(0) == path@);
            }
            path.to_owned()
        },
        Some(i) => text::string_of(&cs.as_slice()[i + 1..n]),
    }
}

/// The components of `path` after its root.
pub fn path_components(path: &str) -> (r: Vec<String>)
    ensures
        text::views(r@) == components(path@),
{
    let cs = text::chars_of(path);
    let segs = text::split(cs.as_slice(), '/');
    let mut out: Vec<String> = Vec::new();
    let mut i: usize = 0;
    while i < segs.len()
        invariant
            text::slices(segs@) == text::split_on(path@, '/'),
            i <= segs@.len(),
            text::views(out@) == components_upto(text::slices(segs@), i as nat),
        decreases segs@.len() - i,
    {
        let seg = segs[i];
        proof {
            assert(text::slices(segs@)[i as int] == seg@);
        }
        let dot = seg.len() == 1 && seg[0] == '.';
        proof {
            assert(dot == (seg@ == seq!['.'])) by {
                if dot {
                    assert(seg@ =~= seq!['.']);
                }
            }
        }
        if seg.len() > 0 && (!dot || i == 0) {
            let ghost before = text::views(out@);
            out.push(text::string_of(seg));
            proof {
                assert(text::views(out@) == before.push(seg@));
            }
        }
        i += 1;
    }
    out
}

/// Whether `path` starts at the filesystem root.
pub fn path_is_absolute(path: &str) -> (r: bool)
    ensures
        r == is_absolute(path@),
{
    let cs = text::chars_of(path);
    cs.len() > 0 && cs[0] == '/'
}

/// Whether two texts name the same path.
pub fn paths_equal(a: &str, b: &str) -> (r: bool)
    ensures
        r == same_path(a@, b@),
{
    let x = path_components(a);
    let y = path_components(b);
    path_is_absolute(a) == path_is_absolute(b) && same_texts(x.as_slice(), y.as_slice())
}

/// Whether two lists of texts are equal.
pub fn same_texts(a: &[String], b: &[String]) -> (r: bool)
    ensures
        r == (text::views(a@) == text::views(b@)),
{
    if a.len() != b.len() {
        proof {
            assert(text::views(a@).len() != text::views(b@).len());
        }
        return false;
    }
    let mut i: usize = 0;
    while i < a.len()
        invariant
            i <= a@.len() == b@.len(),
            forall|j: int| 0 <= j < i ==> text::views(a@)[j] == text::views(b@)[j],
        decreases a@.len() - i,
    {
        if !text::same(&a[i], &b[i]) {
            proof {
                assert(text::views(a@)[i as int] != text::views(b@)[i as int]);
            }
            return false;
        }
        i += 1;
    }
    proof {
        assert(text::views(a@) =~= text::views(b@));
    }
    true
}

/// Whether `path` names `base` or something below it.
pub fn path_within(base: &str, path: &str) -> (r: bool)
    ensures
        r == within(base@, path@),
{
    let b = path_components(base);
    let p = path_components(path);
    let n = b.len();
    if path_is_absolute(base) != path_is_absolute(path) || n > p.len() {
        return false;
    }
    let head = &p.as_slice()[0..n];
    proof {
        assert(text::views(head@) =~= text::views(p@).take(n as int));
    }
    same_texts(b.as_slice(), head)
}

/// `rel` below `base`; `rel` itself where it is absolute.
pub fn joined_path(base: &str, rel: &str) -> (r: String)
    ensures
        r@ == join_path(base@, rel@),
{
    if path_is_absolute(rel) {
        return rel.to_owned();
    }
    let cs = text::chars_of(base);
    let n = cs.len();
    if n == 0 || cs[n - 1] == '/' {
        text::join2(base, rel)
    } else {
        text::join3(base, "/", rel)
    }
}

/// `path` without the slashes it starts with.
pub fn without_root(path: &str) -> (r: String)
    ensures
        r@ == strip_root(path@),
{
    let cs = text::chars_of(path);
    let n = cs.len();
    let mut i: usize = 0;
    proof {
        assert(path@.skip(0) =~= path@);
    }
    while i < n && cs[i] == '/'
        invariant
            cs@ == path@,
            n == cs@.len(),
            i <= n,
            strip_root(path@) == strip_root(path@.skip(i as int)),
        decreases n - i,
    {
        proof {
            assert(path@.skip(i as int).skip(1) =~= path@.skip(i + 1));
        }
        i += 1;
    }
    let rest = &cs.as_slice()[i..n];
    proof {
        assert(rest@ =~= path@.skip(i as int));
    }
    text::string_of(rest)
}

// ---------------------------------------------------------------------------
// Laws
// ---------------------------------------------------------------------------

/// Two grants on one path write where either does, and only there.
pub proof fn grants_add_up(a: Access, b: Access)
    ensures
        a.joined(b) is Rw <==> a is Rw || b is Rw,
        a.joined(b) == b.joined(a),
        Access::Ro.text() == "ro"@,
        Access::Rw.text() == "rw"@,
{
}

/// A path lies at or under a prefix, however many slashes that ends in, where it is the
/// prefix without them or goes on from there with a slash.
pub proof fn under_on_a_component_boundary(
    stem: Seq<char>,
    slashes: Seq<char>,
    path: Seq<char>,
)
    requires
        stem.len() == 0 || stem.last() != '/',
        forall|i: int| 0 <= i < slashes.len() ==> slashes[i] == '/',
    ensures
        at_or_under(stem + slashes, path) <==> path == stem || (path.len() > stem.len()
            && path.take(stem.len() as int) == stem && path[stem.len() as int] == '/'),
{
    let prefix = stem + slashes;
    text::trimming_a_character(prefix, '/');
    let t = text::trim_end_char(prefix, '/');
    if t.len() > stem.len() {
        assert(t.last() == prefix[t.len() - 1]);
        assert(prefix[t.len() - 1] == slashes[t.len() - 1 - stem.len()]);
    }
    if t.len() < stem.len() {
        assert(prefix[stem.len() - 1] == stem.last());
    }
    assert(t =~= stem);
    let p = stem.push('/');
    if text::starts_with(path, p) {
        assert(path.take(p.len() as int)[stem.len() as int] == '/');
        assert(path.take(stem.len() as int) =~= path.take(p.len() as int).take(stem.len() as int));
        assert(p.take(stem.len() as int) =~= stem);
    }
    if path.len() > stem.len() && path.take(stem.len() as int) == stem && path[stem.len() as int]
        == '/' {
        assert(path.take(p.len() as int) =~= path.take(stem.len() as int).push('/'));
    }
}

/// A path is under some root where it is at or under one of them.
pub proof fn under_one_of_the_roots(roots: Seq<Seq<char>>, path: Seq<char>)
    ensures
        under_some(roots, path) <==> exists|root: Seq<char>| #[trigger]
            roots.contains(root) && at_or_under(root, path),
{
    if under_some(roots, path) {
        let i = choose|i: int| 0 <= i < roots.len() && at_or_under(#[trigger] roots[i], path);
        assert(roots.contains(roots[i]));
    }
    if exists|root: Seq<char>| #[trigger] roots.contains(root) && at_or_under(root, path) {
        let root = choose|root: Seq<char>| #[trigger]
            roots.contains(root) && at_or_under(root, path);
        let i = choose|i: int| 0 <= i < roots.len() && roots[i] == root;
        assert(at_or_under(roots[i], path));
    }
}

/// A path is its directory, a slash and its last name; the directory of a top-level path is
/// the root, and a path without a slash is its own.
pub proof fn a_path_is_its_directory_and_name(dir: Seq<char>, name: Seq<char>)
    requires
        !name.contains('/'),
    ensures
        parent_of(dir.push('/') + name) == (if dir.len() > 0 {
            dir
        } else {
            seq!['/']
        }),
        base_of(dir.push('/') + name) == name,
        parent_of(name) == name,
        base_of(name) == name,
{
    let path = dir.push('/') + name;
    text::the_last_position(path, '/');
    text::the_last_position(name, '/');
    let k = text::last_index(path, '/');
    assert(path[dir.len() as int] == '/');
    if k > dir.len() {
        assert(path[k] == name[k - dir.len() - 1]);
    }
    assert(k == dir.len());
    assert(path.take(k) =~= dir);
    assert(path.skip(k + 1) =~= name);
    assert(text::last_index(name, '/') == -1);
    assert(name.skip(0) =~= name);
}

/// A text split at a slash: the pieces before it and the pieces after it.
proof fn lemma_split_at_last(a: Seq<char>, b: Seq<char>)
    requires
        !b.contains('/'),
    ensures
        text::split_on(a.push('/') + b, '/') == text::split_on(a, '/').push(b),
    decreases a.len(),
{
    let s = a.push('/') + b;
    text::the_first_position(a, '/');
    let k = text::index_of(a, '/') as int;
    if k < a.len() {
        assert forall|j: int| 0 <= j < k implies #[trigger] s[j] != '/' by {
            assert(s[j] == a[j]);
        }
        assert(s[k] == a[k]);
        text::lemma_split_step(s, '/', k);
        text::lemma_split_step(a, '/', k);
        lemma_split_at_last(a.skip(k + 1), b);
        assert(s.skip(k + 1) =~= a.skip(k + 1).push('/') + b);
        assert(s.take(k) =~= a.take(k));
        assert(text::split_on(s, '/') =~= text::split_on(a, '/').push(b));
    } else {
        assert forall|j: int| 0 <= j < a.len() implies #[trigger] s[j] != '/' by {
            assert(s[j] == a[j]);
        }
        assert(s[a.len() as int] == '/');
        text::lemma_split_step(s, '/', a.len() as int);
        text::lemma_split_step(a, '/', a.len() as int);
        assert(s.skip(a.len() as int + 1) =~= b);
        assert(s.take(a.len() as int) =~= a);
        text::the_first_position(b, '/');
        text::lemma_split_step(b, '/', b.len() as int);
        assert(text::split_on(s, '/') =~= text::split_on(a, '/').push(b));
    }
}

/// The components of the first segments do not depend on later ones.
proof fn lemma_components_prefix(segs: Seq<Seq<char>>, more: Seq<char>, n: nat)
    requires
        n <= segs.len(),
    ensures
        components_upto(segs.push(more), n) == components_upto(segs, n),
    decreases n,
{
    if n > 0 {
        lemma_components_prefix(segs, more, (n - 1) as nat);
        assert(segs.push(more)[n - 1] == segs[n - 1]);
    }
}

/// A path without a slash is one component, or none where it is empty. What follows a last
/// slash is one more component, unless it is empty or a lone dot.
pub proof fn components_stand_between_slashes(a: Seq<char>, b: Seq<char>)
    requires
        !b.contains('/'),
    ensures
        components(b) == (if b.len() > 0 {
            seq![b]
        } else {
            seq![]
        }),
        components(a.push('/') + b) == (if b.len() == 0 || b == seq!['.'] {
            components(a)
        } else {
            components(a).push(b)
        }),
{
    text::the_first_position(b, '/');
    text::lemma_split_step(b, '/', b.len() as int);
    let one = text::split_on(b, '/');
    assert(one =~= seq![b]);
    assert(components_upto(one, 0) =~= seq![]);
    assert(components_upto(one, 1) =~= if b.len() > 0 {
        seq![b]
    } else {
        seq![]
    });
    let segs = text::split_on(a, '/');
    text::split_pieces_rejoin(a, '/');
    lemma_split_at_last(a, b);
    lemma_components_prefix(segs, b, segs.len());
    assert(segs.push(b)[segs.len() as int] == b);
}

/// Two texts name one path where both start at the root or neither does, and their
/// components agree; one lies within another where its components go on from the other's.
pub proof fn paths_compare_by_component(a: Seq<char>, b: Seq<char>)
    ensures
        same_path(a, b) <==> (a.len() > 0 && a[0] == '/' <==> b.len() > 0 && b[0] == '/')
            && components(a) == components(b),
        within(a, b) <==> (a.len() > 0 && a[0] == '/' <==> b.len() > 0 && b[0] == '/')
            && exists|rest: Seq<Seq<char>>| components(b) == #[trigger] (components(a) + rest),
{
    let ca = components(a);
    let cb = components(b);
    if ca.len() <= cb.len() && cb.take(ca.len() as int) == ca {
        assert(cb =~= ca + cb.skip(ca.len() as int));
    }
    if exists|rest: Seq<Seq<char>>| cb == #[trigger] (ca + rest) {
        let rest = choose|rest: Seq<Seq<char>>| cb == #[trigger] (ca + rest);
        assert(cb.take(ca.len() as int) =~= ca);
    }
}

/// A relative path below a base stands behind it and one slash; an absolute one stands for
/// itself. Without its root a path has no slash in front, and is what follows the slashes.
pub proof fn joining_and_stripping(base: Seq<char>, rel: Seq<char>, slashes: Seq<char>)
    requires
        rel.len() > 0 ==> rel[0] != '/',
        forall|i: int| 0 <= i < slashes.len() ==> slashes[i] == '/',
    ensures
        base.len() > 0 && base.last() != '/' ==> join_path(base, rel) == base.push('/') + rel,
        base.len() > 0 && base.last() == '/' ==> join_path(base, rel) == base + rel,
        base.len() == 0 ==> join_path(base, rel) == rel,
        slashes.len() > 0 ==> join_path(base, slashes + rel) == slashes + rel,
        strip_root(slashes + rel) == rel,
    decreases slashes.len(),
{
    reveal_strlit("/");
    assert(base + "/"@ + rel =~= base.push('/') + rel);
    assert(base.len() == 0 ==> base + rel =~= rel);
    if slashes.len() > 0 {
        joining_and_stripping(base, rel, slashes.skip(1));
        assert((slashes + rel).skip(1) =~= slashes.skip(1) + rel);
        assert((slashes + rel)[0] == '/');
    } else {
        assert(slashes + rel =~= rel);
    }
}

/// A grant covers its own path, whatever its shape; a recursive one covers what lies below
/// it too, and no other covers anything else.
pub proof fn grants_cover_their_path_and_below(g: GrantView, path: Seq<char>)
    ensures
        g.covers(g.path),
        g.covers(path) && !g.recursive ==> path == g.path,
        g.recursive ==> (g.covers(path) <==> path == g.path || at_or_under(g.path, path)),
{
}

} // verus!
