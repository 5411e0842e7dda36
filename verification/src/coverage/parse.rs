//! Readers of what the scan tools print.
//!
//! A line that cannot be read with confidence is skipped: no object is ever keyed on a
//! fragment.

use vstd::hash_map::StringHashMap;
use vstd::prelude::*;

use crate::coverage;
use crate::coverage::Provenance;
use crate::text;

verus! {

broadcast use vstd::string::group_string_axioms;

/// Marker words that may follow the checksum of a conffile.
pub const CONFFILE_MARKERS: [&'static str; 4] = [
    "obsolete",
    "newconffile",
    "remove-on-upgrade",
    "remove",
];

/// Name prefixes of add-on packages.
pub const ADDON_PREFIXES: [&'static str; 4] = ["docker", "containerd", "kubelet", "nvidia"];

// ---------------------------------------------------------------------------
// Lines
// ---------------------------------------------------------------------------

/// A conffile record without its marker word, if it has one.
pub open spec fn without_marker(line: Seq<char>) -> Seq<char> {
    let i = text::last_space(line);
    if i >= 0 && text::listed(text::str_views(CONFFILE_MARKERS@), line.skip(i + 1)) {
        text::trim_end(line.take(i))
    } else {
        line
    }
}

/// The path of a conffile record `<path> <checksum>[ <marker>]`, where it is under
/// `/etc`. The fixed fields are taken off the end, so a path may hold spaces.
pub open spec fn conffile_of(line: Seq<char>) -> Option<Seq<char>> {
    let rest = without_marker(text::trim(line));
    let j = text::last_space(rest);
    if j < 0 {
        None
    } else {
        let path = text::trim_end(rest.take(j));
        if text::starts_with(path, "/etc/"@) {
            Some(path)
        } else {
            None
        }
    }
}

/// The service unit that a line of a unit listing starts with.
pub open spec fn unit_line(line: Seq<char>) -> Option<Seq<char>> {
    match text::first_word(line) {
        Some(name) => if text::ends_with(name, ".service"@) {
            Some(name)
        } else {
            None
        },
        None => None,
    }
}

/// The name of a line `name:passwd:gid:members` that is not a comment.
pub open spec fn group_line(line: Seq<char>) -> Option<Seq<char>> {
    let l = text::trim_end(line);
    let name = l.take(text::index_of(l, ':') as int);
    if l.len() == 0 || l[0] == '#' || name.len() == 0 {
        None
    } else {
        Some(name)
    }
}

/// What stands before the capability set, without the separate `=` of the newer form. A
/// `=` that ends the path itself stays.
pub open spec fn without_equals(head: Seq<char>) -> Seq<char> {
    let n = head.len();
    if n >= 2 && head[n - 1] == '=' && text::is_space(head[n - 2]) {
        text::trim_end(head.drop_last())
    } else {
        head
    }
}

/// The path and capability set of a line `<path> <caps>` or `<path> = <caps>`. The set
/// is the last word, so a path may hold spaces.
pub open spec fn getcap_line(line: Seq<char>) -> Option<(Seq<char>, Seq<char>)> {
    let l = text::trim(line);
    let i = text::last_space(l);
    if l.len() == 0 || l[0] != '/' || i < 0 {
        None
    } else {
        let path = without_equals(text::trim_end(l.take(i)));
        if path.len() == 0 || path[0] != '/' {
            None
        } else {
            Some((path, l.skip(i + 1)))
        }
    }
}

/// The position of the last colon that a space follows, or -1.
pub open spec fn last_colon(s: Seq<char>) -> int
    decreases s.len(),
{
    if s.len() < 2 {
        -1
    } else if s[s.len() - 2] == ':' && s.last() == ' ' {
        s.len() - 2
    } else {
        last_colon(s.drop_last())
    }
}

/// The path and owner of a line `<owner>: <path>`.
pub open spec fn owner_line(line: Seq<char>) -> Option<(Seq<char>, Seq<char>)> {
    let l = text::trim(line);
    let k = last_colon(l);
    if k < 0 {
        None
    } else {
        let path = text::trim(l.skip(k + 2));
        if path.len() == 0 || path[0] != '/' {
            None
        } else {
            Some((path, text::trim(l.take(k))))
        }
    }
}

/// The conffile paths of the lines, each once, in order.
pub open spec fn conffiles(lines: Seq<Seq<char>>) -> Seq<Seq<char>>
    decreases lines.len(),
{
    if lines.len() == 0 {
        seq![]
    } else {
        with_new(conffiles(lines.drop_last()), conffile_of(lines.last()))
    }
}

/// The units of the lines, each once, in order.
pub open spec fn units(lines: Seq<Seq<char>>) -> Seq<Seq<char>>
    decreases lines.len(),
{
    if lines.len() == 0 {
        seq![]
    } else {
        with_new(units(lines.drop_last()), unit_line(lines.last()))
    }
}

/// The group names of the lines, each once, in order.
pub open spec fn group_names(lines: Seq<Seq<char>>) -> Seq<Seq<char>>
    decreases lines.len(),
{
    if lines.len() == 0 {
        seq![]
    } else {
        with_new(group_names(lines.drop_last()), group_line(lines.last()))
    }
}

/// The list with an item at its end, where there is one that it does not have yet.
pub open spec fn with_new(list: Seq<Seq<char>>, item: Option<Seq<char>>) -> Seq<Seq<char>> {
    match item {
        Some(t) => if text::listed(list, t) {
            list
        } else {
            list.push(t)
        },
        None => list,
    }
}

/// The capability-bearing files of the lines, in order.
pub open spec fn capfiles(lines: Seq<Seq<char>>) -> Seq<(Seq<char>, Seq<char>)>
    decreases lines.len(),
{
    if lines.len() == 0 {
        seq![]
    } else {
        let before = capfiles(lines.drop_last());
        match getcap_line(lines.last()) {
            Some(p) => before.push(p),
            None => before,
        }
    }
}

/// The owned paths of the lines, in order.
pub open spec fn owned_paths(lines: Seq<Seq<char>>) -> Seq<(Seq<char>, Seq<char>)>
    decreases lines.len(),
{
    if lines.len() == 0 {
        seq![]
    } else {
        let before = owned_paths(lines.drop_last());
        match owner_line(lines.last()) {
            Some(p) => before.push(p),
            None => before,
        }
    }
}

/// The contents of a list of pairs.
pub open spec fn pair_views(v: Seq<(String, String)>) -> Seq<(Seq<char>, Seq<char>)> {
    v.map_values(|p: (String, String)| (p.0@, p.1@))
}

// ---------------------------------------------------------------------------
// Reading lines
// ---------------------------------------------------------------------------

/// The contents of an optional run of characters.
pub open spec fn opt_slice(s: Option<&[char]>) -> Option<Seq<char>> {
    match s {
        Some(s) => Some(s@),
        None => None,
    }
}

/// The contents of an optional pair.
pub open spec fn opt_pair(p: Option<(String, String)>) -> Option<(Seq<char>, Seq<char>)> {
    match p {
        Some(p) => Some((p.0@, p.1@)),
        None => None,
    }
}

/// The path of a conffile record.
fn read_conffile(line: &[char]) -> (r: Option<&[char]>)
    ensures
        opt_slice(r) == conffile_of(line@),
{
    let line = text::trim_both(line);
    let n = line.len();
    let mut rest = line;
    match text::rfind_space(line) {
        Some(i) => {
            let marker = text::string_of(&line[i + 1..n]);
            proof {
                assert(line@.subrange(i + 1, n as int) =~= line@.skip(i + 1));
                assert(line@.subrange(0, i as int) =~= line@.take(i as int));
            }
            if text::in_words(&CONFFILE_MARKERS, &marker) {
                rest = text::trim_back(&line[0..i]);
            }
        },
        None => {},
    }
    match text::rfind_space(rest) {
        Some(j) => {
            let path = text::trim_back(&rest[0..j]);
            proof {
                assert(rest@.subrange(0, j as int) =~= rest@.take(j as int));
            }
            if text::has_prefix(path, "/etc/") {
                Some(path)
            } else {
                None
            }
        },
        None => None,
    }
}

/// The service unit that a line starts with.
fn read_unit(line: &[char]) -> (r: Option<&[char]>)
    ensures
        opt_slice(r) == unit_line(line@),
{
    let words = text::split_words(line);
    proof {
        assert(text::slices(words@).len() == words@.len());
    }
    if words.len() == 0 {
        return None;
    }
    let name = words[0];
    proof {
        assert(text::slices(words@)[0] == name@);
    }
    if text::has_suffix(name, ".service") {
        Some(name)
    } else {
        None
    }
}

/// The group name of a line.
fn read_group(line: &[char]) -> (r: Option<&[char]>)
    ensures
        opt_slice(r) == group_line(line@),
{
    let line = text::trim_back(line);
    let k = text::find_char(line, ':');
    if line.len() == 0 || line[0] == '#' || k == 0 {
        return None;
    }
    proof {
        assert(line@.subrange(0, k as int) =~= line@.take(k as int));
    }
    Some(&line[0..k])
}

/// The path and capability set of a line.
fn read_getcap(line: &[char]) -> (r: Option<(String, String)>)
    ensures
        opt_pair(r) == getcap_line(line@),
{
    let line = text::trim_both(line);
    let n = line.len();
    if n == 0 || line[0] != '/' {
        return None;
    }
    match text::rfind_space(line) {
        Some(i) => {
            let head = text::trim_back(&line[0..i]);
            let k = head.len();
            let path = if k >= 2 && head[k - 1] == '=' && text::space(head[k - 2]) {
                text::trim_back(&head[0..k - 1])
            } else {
                head
            };
            proof {
                assert(head@.subrange(0, k - 1) =~= head@.drop_last());
                assert(line@.subrange(0, i as int) =~= line@.take(i as int));
                assert(line@.subrange(i + 1, n as int) =~= line@.skip(i + 1));
            }
            if path.len() == 0 || path[0] != '/' {
                return None;
            }
            Some((text::string_of(path), text::string_of(&line[i + 1..n])))
        },
        None => None,
    }
}

/// The position of the last colon that a space follows.
fn rfind_colon(cs: &[char]) -> (r: Option<usize>)
    ensures
        match r {
            Some(k) => k == last_colon(cs@) && k + 1 < cs@.len(),
            None => last_colon(cs@) == -1,
        },
{
    let mut n: usize = cs.len();
    proof {
        assert(cs@.take(n as int) =~= cs@);
    }
    while n >= 2
        invariant
            n <= cs@.len(),
            last_colon(cs@) == last_colon(cs@.take(n as int)),
        decreases n,
    {
        proof {
            assert(cs@.take(n as int).drop_last() =~= cs@.take(n - 1));
        }
        if cs[n - 2] == ':' && cs[n - 1] == ' ' {
            return Some(n - 2);
        }
        n -= 1;
    }
    None
}

/// The path and owner of a line.
fn read_owner(line: &[char]) -> (r: Option<(String, String)>)
    ensures
        opt_pair(r) == owner_line(line@),
{
    let line = text::trim_both(line);
    let n = line.len();
    match rfind_colon(line) {
        Some(k) => {
            let owner = text::trim_both(&line[0..k]);
            let path = text::trim_both(&line[k + 2..n]);
            proof {
                assert(line@.subrange(0, k as int) =~= line@.take(k as int));
                assert(line@.subrange(k + 2, n as int) =~= line@.skip(k + 2));
            }
            if path.len() == 0 || path[0] != '/' {
                return None;
            }
            Some((text::string_of(path), text::string_of(owner)))
        },
        None => None,
    }
}

/// Append an item that the list does not have yet.
fn push_new(list: &mut Vec<String>, item: Option<&[char]>)
    ensures
        text::views(final(list)@) == with_new(text::views(old(list)@), opt_slice(item)),
{
    let ghost was = text::views(list@);
    match item {
        Some(cs) => {
            let t = text::string_of(cs);
            if !text::in_list(list.as_slice(), &t) {
                list.push(t);
                proof {
                    assert(text::views(list@) =~= was.push(cs@));
                }
            }
        },
        None => {},
    }
}

// ---------------------------------------------------------------------------
// The readers
// ---------------------------------------------------------------------------

/// Read `dpkg-query -W -f='${Conffiles}\n'`: the paths under `/etc`, each once.
pub fn parse_dpkg_conffiles(stdout: &str) -> (out: Vec<String>)
    ensures
        text::views(out@) == conffiles(text::lines(stdout@)),
{
    let cs = text::chars_of(stdout);
    let lines = text::split_lines(cs.as_slice());
    let ghost all = text::slices(lines@);
    let mut out: Vec<String> = Vec::new();
    let mut i: usize = 0;
    proof {
        assert(text::views(out@) =~= conffiles(all.take(0)));
    }
    while i < lines.len()
        invariant
            all == text::slices(lines@),
            i <= lines@.len(),
            text::views(out@) == conffiles(all.take(i as int)),
        decreases lines@.len() - i,
    {
        proof {
            assert(all.take(i + 1).drop_last() =~= all.take(i as int));
            assert(all.take(i + 1).last() == lines@[i as int]@);
        }
        push_new(&mut out, read_conffile(lines[i]));
        i += 1;
    }
    proof {
        assert(all.take(i as int) =~= all);
    }
    out
}

/// Read `systemctl list-unit-files --no-legend --type=service`: the unit names, each
/// once.
pub fn parse_systemctl_units(stdout: &str) -> (out: Vec<String>)
    ensures
        text::views(out@) == units(text::lines(stdout@)),
{
    let cs = text::chars_of(stdout);
    let lines = text::split_lines(cs.as_slice());
    let ghost all = text::slices(lines@);
    let mut out: Vec<String> = Vec::new();
    let mut i: usize = 0;
    proof {
        assert(text::views(out@) =~= units(all.take(0)));
    }
    while i < lines.len()
        invariant
            all == text::slices(lines@),
            i <= lines@.len(),
            text::views(out@) == units(all.take(i as int)),
        decreases lines@.len() - i,
    {
        proof {
            assert(all.take(i + 1).drop_last() =~= all.take(i as int));
            assert(all.take(i + 1).last() == lines@[i as int]@);
        }
        push_new(&mut out, read_unit(lines[i]));
        i += 1;
    }
    proof {
        assert(all.take(i as int) =~= all);
    }
    out
}

/// Read `/etc/group`: the group names, each once.
pub fn parse_etc_group(text: &str) -> (out: Vec<String>)
    ensures
        text::views(out@) == group_names(text::lines(text@)),
{
    let cs = text::chars_of(text);
    let lines = text::split_lines(cs.as_slice());
    let ghost all = text::slices(lines@);
    let mut out: Vec<String> = Vec::new();
    let mut i: usize = 0;
    proof {
        assert(text::views(out@) =~= group_names(all.take(0)));
    }
    while i < lines.len()
        invariant
            all == text::slices(lines@),
            i <= lines@.len(),
            text::views(out@) == group_names(all.take(i as int)),
        decreases lines@.len() - i,
    {
        proof {
            assert(all.take(i + 1).drop_last() =~= all.take(i as int));
            assert(all.take(i + 1).last() == lines@[i as int]@);
        }
        push_new(&mut out, read_group(lines[i]));
        i += 1;
    }
    proof {
        assert(all.take(i as int) =~= all);
    }
    out
}

/// Read `getcap -r <dirs>`: pairs of path and capability set.
pub fn parse_getcap(stdout: &str) -> (out: Vec<(String, String)>)
    ensures
        pair_views(out@) == capfiles(text::lines(stdout@)),
{
    let cs = text::chars_of(stdout);
    let lines = text::split_lines(cs.as_slice());
    let ghost all = text::slices(lines@);
    let mut out: Vec<(String, String)> = Vec::new();
    let mut i: usize = 0;
    proof {
        assert(pair_views(out@) =~= capfiles(all.take(0)));
    }
    while i < lines.len()
        invariant
            all == text::slices(lines@),
            i <= lines@.len(),
            pair_views(out@) == capfiles(all.take(i as int)),
        decreases lines@.len() - i,
    {
        let ghost was = pair_views(out@);
        proof {
            assert(all.take(i + 1).drop_last() =~= all.take(i as int));
            assert(all.take(i + 1).last() == lines@[i as int]@);
        }
        match read_getcap(lines[i]) {
            Some(p) => {
                let ghost one = (p.0@, p.1@);
                out.push(p);
                proof {
                    assert(pair_views(out@) =~= was.push(one));
                }
            },
            None => {},
        }
        i += 1;
    }
    proof {
        assert(all.take(i as int) =~= all);
    }
    out
}

/// Read `dpkg -S <paths>`: pairs of path and owner.
pub fn parse_dpkg_search(stdout: &str) -> (out: Vec<(String, String)>)
    ensures
        pair_views(out@) == owned_paths(text::lines(stdout@)),
{
    let cs = text::chars_of(stdout);
    let lines = text::split_lines(cs.as_slice());
    let ghost all = text::slices(lines@);
    let mut out: Vec<(String, String)> = Vec::new();
    let mut i: usize = 0;
    proof {
        assert(pair_views(out@) =~= owned_paths(all.take(0)));
    }
    while i < lines.len()
        invariant
            all == text::slices(lines@),
            i <= lines@.len(),
            pair_views(out@) == owned_paths(all.take(i as int)),
        decreases lines@.len() - i,
    {
        let ghost was = pair_views(out@);
        proof {
            assert(all.take(i + 1).drop_last() =~= all.take(i as int));
            assert(all.take(i + 1).last() == lines@[i as int]@);
        }
        match read_owner(lines[i]) {
            Some(p) => {
                let ghost one = (p.0@, p.1@);
                out.push(p);
                proof {
                    assert(pair_views(out@) =~= was.push(one));
                }
            },
            None => {},
        }
        i += 1;
    }
    proof {
        assert(all.take(i as int) =~= all);
    }
    out
}

// ---------------------------------------------------------------------------
// Owners
// ---------------------------------------------------------------------------

/// The owner of each owned path.
pub struct OwnerMap {
    owners: StringHashMap<String>,
}

impl View for OwnerMap {
    type V = Map<Seq<char>, Seq<char>>;

    closed spec fn view(&self) -> Map<Seq<char>, Seq<char>> {
        self.owners@.map_values(|s: String| s@)
    }
}

/// The owners with those of the pairs folded in. The first owner of a path stays.
pub open spec fn merged(
    owners: Map<Seq<char>, Seq<char>>,
    pairs: Seq<(Seq<char>, Seq<char>)>,
) -> Map<Seq<char>, Seq<char>>
    decreases pairs.len(),
{
    if pairs.len() == 0 {
        owners
    } else {
        let before = merged(owners, pairs.drop_last());
        let (path, pkg) = pairs.last();
        if before.contains_key(path) {
            before
        } else {
            before.insert(path, pkg)
        }
    }
}

impl OwnerMap {
    /// No owners.
    pub fn new() -> (r: Self)
        ensures
            r@ == Map::<Seq<char>, Seq<char>>::empty(),
    {
        let r = OwnerMap { owners: StringHashMap::new() };
        proof {
            assert(r@ =~= Map::<Seq<char>, Seq<char>>::empty());
        }
        r
    }

    /// The owner of a path.
    pub fn get(&self, path: &str) -> (r: Option<&String>)
        ensures
            match r {
                Some(pkg) => self@.contains_key(path@) && self@[path@] == pkg@,
                None => !self@.contains_key(path@),
            },
    {
        self.owners.get(path)
    }

    /// How many paths have an owner.
    pub fn len(&self) -> (n: usize)
        ensures
            n == self@.dom().len(),
    {
        proof {
            assert(self@.dom() =~= self.owners@.dom());
        }
        self.owners.len()
    }

    /// Whether no path has an owner.
    pub fn is_empty(&self) -> (r: bool)
        ensures
            r == (self@.dom().len() == 0),
    {
        self.len() == 0
    }
}

/// Fold one chunk of pairs of path and owner into the map. The first owner seen for a
/// path wins.
pub fn merge_dpkg_owners(acc: &mut OwnerMap, chunk: Vec<(String, String)>)
    ensures
        final(acc)@ == merged(old(acc)@, pair_views(chunk@)),
{
    let ghost all = pair_views(chunk@);
    let ghost was = acc@;
    let mut i: usize = 0;
    while i < chunk.len()
        invariant
            all == pair_views(chunk@),
            i <= chunk@.len(),
            acc@ == merged(was, all.take(i as int)),
        decreases chunk@.len() - i,
    {
        let ghost so_far = acc@;
        let path = &chunk[i].0;
        let pkg = &chunk[i].1;
        proof {
            assert(all.take(i + 1).drop_last() =~= all.take(i as int));
            assert(all.take(i + 1).last() == (path@, pkg@));
        }
        if acc.get(path).is_none() {
            acc.owners.insert(path.clone(), pkg.clone());
            proof {
                assert(acc@ =~= so_far.insert(path@, pkg@));
            }
        }
        i += 1;
    }
    proof {
        assert(all.take(i as int) =~= all);
    }
}

/// The nominal owner: the first of a comma-separated list.
pub open spec fn nominal_owner(pkg: Seq<char>) -> Seq<char> {
    text::trim(pkg.take(text::index_of(pkg, ',') as int))
}

/// Whether a name starts with one of the add-on prefixes.
pub open spec fn is_addon(name: Seq<char>) -> bool {
    exists|i: int|
        0 <= i < ADDON_PREFIXES@.len() && text::starts_with(name, #[trigger] ADDON_PREFIXES@[i]@)
}

/// The provenance of an object with this owner.
pub open spec fn provenance_of(pkg: Seq<char>) -> coverage::ProvenanceView {
    if is_addon(nominal_owner(pkg)) {
        coverage::ProvenanceView::Addon(nominal_owner(pkg))
    } else {
        coverage::ProvenanceView::Vendor
    }
}

/// Classify an owner package name into a provenance.
pub fn classify_owner(pkg: &str) -> (r: Provenance)
    ensures
        r@ == provenance_of(pkg@),
{
    let cs = text::chars_of(pkg);
    let k = text::find_char(cs.as_slice(), ',');
    let first = text::trim_both(&cs.as_slice()[0..k]);
    proof {
        assert(cs@.subrange(0, k as int) =~= cs@.take(k as int));
    }
    let mut i: usize = 0;
    while i < ADDON_PREFIXES.len()
        invariant
            i <= ADDON_PREFIXES@.len(),
            first@ == nominal_owner(pkg@),
            forall|j: int|
                0 <= j < i ==> !text::starts_with(first@, #[trigger] ADDON_PREFIXES@[j]@),
        decreases ADDON_PREFIXES@.len() - i,
    {
        if text::has_prefix(first, ADDON_PREFIXES[i]) {
            proof {
                assert(text::starts_with(first@, ADDON_PREFIXES@[i as int]@));
            }
            return Provenance::Addon(text::string_of(first));
        }
        i += 1;
    }
    Provenance::Vendor
}

// ---------------------------------------------------------------------------
// Laws
// ---------------------------------------------------------------------------

/// Whether no text of a list is there twice.
pub open spec fn distinct(list: Seq<Seq<char>>) -> bool {
    forall|i: int, j: int| 0 <= i < j < list.len() ==> #[trigger] list[i] != #[trigger] list[j]
}

/// Adding what is new keeps a list free of repeats.
proof fn lemma_with_new(list: Seq<Seq<char>>, item: Option<Seq<char>>)
    requires
        distinct(list),
    ensures
        distinct(with_new(list, item)),
{
}

/// No conffile is listed twice.
pub proof fn conffiles_are_distinct(lines: Seq<Seq<char>>)
    ensures
        distinct(conffiles(lines)),
    decreases lines.len(),
{
    if lines.len() > 0 {
        conffiles_are_distinct(lines.drop_last());
        lemma_with_new(conffiles(lines.drop_last()), conffile_of(lines.last()));
    }
}

/// No unit is listed twice.
pub proof fn units_are_distinct(lines: Seq<Seq<char>>)
    ensures
        distinct(units(lines)),
    decreases lines.len(),
{
    if lines.len() > 0 {
        units_are_distinct(lines.drop_last());
        lemma_with_new(units(lines.drop_last()), unit_line(lines.last()));
    }
}

/// No group is listed twice.
pub proof fn groups_are_distinct(lines: Seq<Seq<char>>)
    ensures
        distinct(group_names(lines)),
    decreases lines.len(),
{
    if lines.len() > 0 {
        groups_are_distinct(lines.drop_last());
        lemma_with_new(group_names(lines.drop_last()), group_line(lines.last()));
    }
}

/// The first owner of a path stays its owner, whatever is merged later.
pub proof fn the_first_owner_stays(
    owners: Map<Seq<char>, Seq<char>>,
    pairs: Seq<(Seq<char>, Seq<char>)>,
    path: Seq<char>,
)
    requires
        owners.contains_key(path),
    ensures
        merged(owners, pairs).contains_key(path),
        merged(owners, pairs)[path] == owners[path],
    decreases pairs.len(),
{
    if pairs.len() > 0 {
        the_first_owner_stays(owners, pairs.drop_last(), path);
    }
}

/// The marker words of conffiles.
pub proof fn the_conffile_markers(word: Seq<char>)
    ensures
        text::str_views(CONFFILE_MARKERS@).contains(word) <==> {
            ||| word == "obsolete"@
            ||| word == "newconffile"@
            ||| word == "remove-on-upgrade"@
            ||| word == "remove"@
        },
{
    let t = text::str_views(CONFFILE_MARKERS@);
    assert(t[0] == "obsolete"@);
    assert(t[1] == "newconffile"@);
    assert(t[2] == "remove-on-upgrade"@);
    assert(t[3] == "remove"@);
    assert(t.len() == 4);
}

/// Whether a text is a word: not empty, and without white space.
pub open spec fn is_word(s: Seq<char>) -> bool {
    s.len() > 0 && forall|i: int| 0 <= i < s.len() ==> !text::is_space(#[trigger] s[i])
}

/// The last space of a text that ends in a word.
proof fn lemma_before_word(head: Seq<char>, word: Seq<char>)
    requires
        is_word(word),
    ensures
        ({
            let line = head + seq![' '] + word;
            &&& text::last_space(line) == head.len()
            &&& line.skip(head.len() as int + 1) == word
            &&& line.take(head.len() as int) == head
            &&& !text::is_space(line.last())
            &&& line.len() > 0
        }),
{
    let line = head + seq![' '] + word;
    let n = head.len() as int;
    text::white_space_by_code_point(' ');
    assert(line[n] == ' ');
    assert forall|j: int| n < j < line.len() implies !text::is_space(#[trigger] line[j]) by {
        assert(line[j] == word[j - n - 1]);
    }
    text::lemma_last_space(line, n);
    assert(line.skip(n + 1) =~= word);
    assert(line.take(n) =~= head);
    assert(line.last() == word.last());
}

/// A conffile record is a path, a checksum and perhaps a marker: the path is read where it is
/// under `/etc`, with the spaces that are in it, and no other record is.
pub proof fn conffile_records(path: Seq<char>, sum: Seq<char>, marker: Seq<char>)
    requires
        path.len() > 0 && !text::is_space(path[0]) && !text::is_space(path.last()),
        is_word(sum) && is_word(marker),
        !text::str_views(CONFFILE_MARKERS@).contains(sum),
        text::str_views(CONFFILE_MARKERS@).contains(marker),
    ensures
        ({
            let short = path + seq![' '] + sum;
            let long = short + seq![' '] + marker;
            let read = if text::starts_with(path, "/etc/"@) {
                Some(path)
            } else {
                None
            };
            conffile_of(short) == read && conffile_of(long) == read
        }),
{
    let t = text::str_views(CONFFILE_MARKERS@);
    let short = path + seq![' '] + sum;
    let long = short + seq![' '] + marker;
    text::listed_is_contained(t, sum);
    text::listed_is_contained(t, marker);
    lemma_before_word(path, sum);
    lemma_before_word(short, marker);
    assert(short[0] == path[0] && long[0] == path[0]);
    text::lemma_trimmed(short);
    text::lemma_trimmed(long);
    text::lemma_end_trimmed(short);
    text::lemma_end_trimmed(path);
}

/// A line without a space has no checksum, so it is no record; what is read is under `/etc`.
pub proof fn conffiles_are_under_etc(line: Seq<char>)
    ensures
        conffile_of(line) matches Some(path) ==> text::starts_with(path, "/etc/"@),
        is_word(line) ==> conffile_of(line) is None,
{
    if is_word(line) {
        text::lemma_trimmed(line);
        text::the_last_white_space(line);
    }
}

/// A unit is the first word of its line, where that ends in `.service`.
pub proof fn units_are_first_words(line: Seq<char>, name: Seq<char>)
    ensures
        unit_line(line) == Some(name) <==> text::first_word(line) == Some(name) && text::ends_with(
            name,
            ".service"@,
        ),
{
}

/// A group is what stands before the first colon of its line. A comment, an empty line and
/// one that begins with a colon have none.
pub proof fn groups_stand_before_the_colon(name: Seq<char>, rest: Seq<char>)
    requires
        name.len() > 0 && !name.contains(':'),
    ensures
        name[0] != '#' ==> group_line(name + seq![':'] + rest) == Some(name),
        name[0] == '#' ==> group_line(name + seq![':'] + rest) is None,
        group_line(seq![':'] + rest) is None,
        (forall|i: int| 0 <= i < rest.len() ==> text::is_space(#[trigger] rest[i])) ==> group_line(
            rest,
        ) is None,
{
    text::white_space_by_code_point(':');
    let line = name + seq![':'] + rest;
    let n = name.len() as int;
    text::trimming_the_back(line);
    let cut = text::trim_end(line);
    assert(line[n] == ':');
    if cut.len() <= n {
        assert(text::is_space(line[n]));
    }
    assert forall|j: int| 0 <= j < n implies #[trigger] cut[j] != ':' by {
        assert(cut[j] == name[j]);
        assert(name.contains(name[j]));
    }
    assert(cut[n] == ':');
    text::lemma_index_of(cut, ':', n);
    assert(cut.take(n) =~= name);
    assert(cut[0] == name[0]);
    let bare = seq![':'] + rest;
    text::trimming_the_back(bare);
    let short = text::trim_end(bare);
    assert(bare[0] == ':');
    if short.len() == 0 {
        assert(text::is_space(bare[0]));
    }
    assert(short[0] == ':');
    text::lemma_index_of(short, ':', 0);
    if forall|i: int| 0 <= i < rest.len() ==> text::is_space(#[trigger] rest[i]) {
        text::trimming_the_back(rest);
        let blank = text::trim_end(rest);
        if blank.len() > 0 {
            assert(blank.last() == rest[blank.len() - 1]);
        }
    }
}

/// A line of `getcap` is a path and a set of capabilities, with a separate `=` between them
/// or without one. The path may hold spaces; it begins with a slash, or nothing is read.
/// Nothing is read of a word alone, nor of an empty line.
pub proof fn capability_lines(path: Seq<char>, caps: Seq<char>)
    requires
        path.len() > 0 && !text::is_space(path[0]) && !text::is_space(path.last()),
        is_word(caps),
        !(path.len() >= 2 && path.last() == '=' && text::is_space(path[path.len() - 2])),
    ensures
        ({
            let read = if path[0] == '/' {
                Some((path, caps))
            } else {
                None
            };
            &&& getcap_line(path + seq![' '] + caps) == read
            &&& getcap_line(path + seq![' ', '='] + seq![' '] + caps) == read
        }),
        getcap_line(caps) is None,
        getcap_line(Seq::<char>::empty()) is None,
{
    text::white_space_by_code_point('=');
    text::white_space_by_code_point(' ');
    let old = path + seq![' '] + caps;
    let head = path + seq![' ', '='];
    let new = head + seq![' '] + caps;
    lemma_before_word(path, caps);
    lemma_before_word(head, caps);
    assert(old[0] == path[0] && new[0] == path[0] && head[0] == path[0]);
    text::lemma_trimmed(old);
    text::lemma_trimmed(new);
    text::lemma_end_trimmed(path);
    assert(head.last() == '=');
    text::lemma_end_trimmed(head);
    assert(head[head.len() - 2] == ' ');
    assert(head.drop_last() =~= path.push(' '));
    text::lemma_trimmed(caps);
    text::the_last_white_space(caps);
    text::trimming_both_ends(Seq::<char>::empty());
}

/// The last colon that a space follows.
pub proof fn the_last_colon_before_a_space(s: Seq<char>)
    ensures
        -1 <= last_colon(s) < s.len() - 1 || last_colon(s) == -1,
        last_colon(s) >= 0 ==> s[last_colon(s)] == ':' && s[last_colon(s) + 1] == ' ',
        forall|j: int|
            last_colon(s) < j < s.len() - 1 ==> !(#[trigger] s[j] == ':' && s[j + 1] == ' '),
    decreases s.len(),
{
    if s.len() >= 2 && !(s[s.len() - 2] == ':' && s.last() == ' ') {
        let t = s.drop_last();
        the_last_colon_before_a_space(t);
        assert forall|j: int| last_colon(s) < j < s.len() - 1 implies !(#[trigger] s[j] == ':' && s[
        j + 1] == ' ') by {
            if j < t.len() - 1 {
                assert(t[j] == s[j]);
                assert(t[j + 1] == s[j + 1]);
            }
        }
    }
}

/// A line of an owner search is an owner, a colon, a space and a path that begins with a
/// slash; an owner that is empty is kept. A line without a colon and a space says nothing.
pub proof fn owner_lines(owner: Seq<char>, path: Seq<char>)
    requires
        owner.len() > 0 ==> !text::is_space(owner[0]) && !text::is_space(owner.last()),
        path.len() > 0 && !text::is_space(path[0]) && !text::is_space(path.last()),
        forall|j: int|
            0 <= j < path.len() - 1 ==> !(#[trigger] path[j] == ':' && path[j + 1] == ' '),
    ensures
        owner_line(owner + seq![':', ' '] + path) == (if path[0] == '/' {
            Some((path, owner))
        } else {
            None
        }),
        owner_line(path) is None,
{
    text::white_space_by_code_point(' ');
    text::white_space_by_code_point(':');
    let line = owner + seq![':', ' '] + path;
    let n = owner.len() as int;
    assert(line[0] == if n > 0 {
        owner[0]
    } else {
        ':'
    });
    assert(line.last() == path.last());
    text::lemma_trimmed(line);
    the_last_colon_before_a_space(line);
    assert(line[n] == ':' && line[n + 1] == ' ');
    let k = last_colon(line);
    assert(k >= n) by {
        if k < n {
            assert(!(line[n] == ':' && line[n + 1] == ' '));
        }
    }
    if k > n {
        if k == n + 1 {
            assert(line[k] == ' ');
        } else {
            assert(line[k] == path[k - n - 2]);
            assert(line[k + 1] == path[k - n - 1]);
        }
    }
    assert(k == n);
    assert(line.skip(n + 2) =~= path);
    assert(line.take(n) =~= owner);
    text::lemma_trimmed(path);
    if n > 0 {
        text::lemma_trimmed(owner);
    } else {
        text::trimming_both_ends(owner);
        assert(text::trim(owner) =~= owner);
    }
    the_last_colon_before_a_space(path);
}

/// One line more: what it names is added at the end, where it is not listed yet.
pub proof fn one_line_more(lines: Seq<Seq<char>>, line: Seq<char>)
    ensures
        conffiles(Seq::<Seq<char>>::empty()).len() == 0,
        units(Seq::<Seq<char>>::empty()).len() == 0,
        group_names(Seq::<Seq<char>>::empty()).len() == 0,
        conffiles(lines.push(line)) == (match conffile_of(line) {
            Some(t) => if conffiles(lines).contains(t) {
                conffiles(lines)
            } else {
                conffiles(lines).push(t)
            },
            None => conffiles(lines),
        }),
        units(lines.push(line)) == (match unit_line(line) {
            Some(t) => if units(lines).contains(t) {
                units(lines)
            } else {
                units(lines).push(t)
            },
            None => units(lines),
        }),
        group_names(lines.push(line)) == (match group_line(line) {
            Some(t) => if group_names(lines).contains(t) {
                group_names(lines)
            } else {
                group_names(lines).push(t)
            },
            None => group_names(lines),
        }),
{
    let more = lines.push(line);
    assert(more.drop_last() =~= lines);
    assert(more.last() == line);
    if let Some(t) = conffile_of(line) {
        text::listed_is_contained(conffiles(lines), t);
    }
    if let Some(t) = unit_line(line) {
        text::listed_is_contained(units(lines), t);
    }
    if let Some(t) = group_line(line) {
        text::listed_is_contained(group_names(lines), t);
    }
}

/// Each line of `getcap` is read for itself, in order.
pub proof fn capability_lines_add_up(a: Seq<Seq<char>>, b: Seq<Seq<char>>)
    ensures
        capfiles(Seq::<Seq<char>>::empty()).len() == 0,
        capfiles(a + b) == capfiles(a) + capfiles(b),
    decreases b.len(),
{
    if b.len() == 0 {
        assert(a + b =~= a);
        assert(capfiles(a) + capfiles(b) =~= capfiles(a));
    } else {
        capability_lines_add_up(a, b.drop_last());
        assert((a + b).drop_last() =~= a + b.drop_last());
        assert((a + b).last() == b.last());
        assert(capfiles(a + b) =~= capfiles(a) + capfiles(b));
    }
}

/// Each line of an owner search is read for itself, in order.
pub proof fn owner_lines_add_up(a: Seq<Seq<char>>, b: Seq<Seq<char>>)
    ensures
        owned_paths(Seq::<Seq<char>>::empty()).len() == 0,
        owned_paths(a + b) == owned_paths(a) + owned_paths(b),
    decreases b.len(),
{
    if b.len() == 0 {
        assert(a + b =~= a);
        assert(owned_paths(a) + owned_paths(b) =~= owned_paths(a));
    } else {
        owner_lines_add_up(a, b.drop_last());
        assert((a + b).drop_last() =~= a + b.drop_last());
        assert((a + b).last() == b.last());
        assert(owned_paths(a + b) =~= owned_paths(a) + owned_paths(b));
    }
}

/// A line says what it says alone.
pub proof fn one_line_alone(line: Seq<char>)
    ensures
        getcap_line(line) is None ==> capfiles(seq![line]).len() == 0,
        getcap_line(line) matches Some(p) ==> capfiles(seq![line]) == seq![p],
        owner_line(line) is None ==> owned_paths(seq![line]).len() == 0,
        owner_line(line) matches Some(p) ==> owned_paths(seq![line]) == seq![p],
{
    reveal_with_fuel(capfiles, 2);
    reveal_with_fuel(owned_paths, 2);
    assert(seq![line].drop_last() =~= seq![]);
    assert(seq![line].last() == line);
    if let Some(p) = getcap_line(line) {
        assert(Seq::<(Seq<char>, Seq<char>)>::empty().push(p) =~= seq![p]);
    }
    if let Some(p) = owner_line(line) {
        assert(Seq::<(Seq<char>, Seq<char>)>::empty().push(p) =~= seq![p]);
    }
}

/// The owner of a path is the one that was known, or else that of the first pair on it; a
/// path has one only where it was known or a pair is on it.
pub proof fn the_first_pair_owns(
    owners: Map<Seq<char>, Seq<char>>,
    pairs: Seq<(Seq<char>, Seq<char>)>,
    path: Seq<char>,
)
    requires
        !owners.contains_key(path),
    ensures
        if merged(owners, pairs).contains_key(path) {
            exists|i: int|
                {
                    &&& 0 <= i < pairs.len()
                    &&& (#[trigger] pairs[i]) == (path, merged(owners, pairs)[path])
                    &&& forall|j: int| 0 <= j < i ==> (#[trigger] pairs[j]).0 != path
                }
        } else {
            forall|i: int| 0 <= i < pairs.len() ==> (#[trigger] pairs[i]).0 != path
        },
    decreases pairs.len(),
{
    if pairs.len() > 0 {
        let before = pairs.drop_last();
        the_first_pair_owns(owners, before, path);
        if merged(owners, before).contains_key(path) {
            let i = choose|i: int|
                {
                    &&& 0 <= i < before.len()
                    &&& (#[trigger] before[i]) == (path, merged(owners, before)[path])
                    &&& forall|j: int| 0 <= j < i ==> (#[trigger] before[j]).0 != path
                };
            assert(pairs[i] == before[i]);
            assert forall|j: int| 0 <= j < i implies (#[trigger] pairs[j]).0 != path by {
                assert(before[j] == pairs[j]);
            }
        } else {
            assert forall|j: int| 0 <= j < before.len() implies (#[trigger] pairs[j]).0 != path by {
                assert(before[j] == pairs[j]);
            }
            assert(pairs[pairs.len() - 1] == pairs.last());
        }
    }
}

/// The provenance of an owned object goes by the first of its owners: an add-on where that
/// name begins with one of these, and the vendor else.
pub proof fn addons_by_name(pkg: Seq<char>, first: Seq<char>, rest: Seq<char>)
    requires
        !first.contains(','),
    ensures
        nominal_owner(first + seq![','] + rest) == text::trim(first),
        nominal_owner(first) == text::trim(first),
        ({
            let name = nominal_owner(pkg);
            let addon = {
                ||| text::starts_with(name, "docker"@)
                ||| text::starts_with(name, "containerd"@)
                ||| text::starts_with(name, "kubelet"@)
                ||| text::starts_with(name, "nvidia"@)
            };
            &&& addon ==> provenance_of(pkg) == coverage::ProvenanceView::Addon(name)
            &&& !addon ==> provenance_of(pkg) is Vendor
        }),
{
    assert(ADDON_PREFIXES@[0]@ == "docker"@);
    assert(ADDON_PREFIXES@[1]@ == "containerd"@);
    assert(ADDON_PREFIXES@[2]@ == "kubelet"@);
    assert(ADDON_PREFIXES@[3]@ == "nvidia"@);
    assert(ADDON_PREFIXES@.len() == 4);
    let long = first + seq![','] + rest;
    let n = first.len() as int;
    assert forall|j: int| 0 <= j < n implies #[trigger] first[j] != ',' by {
        assert(first.contains(first[j]));
    }
    assert forall|j: int| 0 <= j < n implies #[trigger] long[j] != ',' by {
        assert(long[j] == first[j]);
    }
    assert(long[n] == ',');
    text::lemma_index_of(long, ',', n);
    text::lemma_index_of(first, ',', n);
    assert(long.take(n) =~= first);
    assert(first.take(n) =~= first);
}

} // verus!
