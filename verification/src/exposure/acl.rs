//! POSIX ACL reading and parsing into a structured form.
//!
//! Each inode's ACL is parsed once into [`AclEntries`], a typed list of owner,
//! owning-group, named-user, named-group, mask and other entries with their `rwx`
//! bits. The read is best-effort: whatever `getfacl` printed is parsed, a path it
//! could not read is simply left without an ACL.
//!
//! Every file has a trivial ACL of just `user::`, `group::`, `other::`, which restates
//! the mode bits. Only a named-user, named-group, or mask entry makes an ACL
//! *extended* and worth storing.

use vstd::prelude::*;

use crate::text;

verus! {

broadcast use vstd::string::group_string_axioms;

/// The three POSIX permission bits of one ACL entry.
#[derive(Debug, Clone, Copy, PartialEq, Eq, Structural)]
pub struct AclPerms {
    /// Read permission (`r`).
    pub read: bool,
    /// Write permission (`w`).
    pub write: bool,
    /// Execute / directory-search permission (`x`).
    pub execute: bool,
}

impl Default for AclPerms {
    /// No permission bit set.
    fn default() -> (r: Self)
        ensures
            r == AclPerms::none(),
    {
        AclPerms { read: false, write: false, execute: false }
    }
}

impl AclPerms {
    /// All three permission bits set.
    pub open spec fn full() -> AclPerms {
        AclPerms { read: true, write: true, execute: true }
    }

    /// No permission bit set.
    pub open spec fn none() -> AclPerms {
        AclPerms { read: false, write: false, execute: false }
    }

    /// The canonical triple (`rw-`, `r-x`, `---`).
    pub open spec fn triple(self) -> Seq<char> {
        seq![
            if self.read {
                'r'
            } else {
                '-'
            },
            if self.write {
                'w'
            } else {
                '-'
            },
            if self.execute {
                'x'
            } else {
                '-'
            },
        ]
    }

    /// The bits that both sets have.
    pub open spec fn meet(self, mask: AclPerms) -> AclPerms {
        AclPerms {
            read: self.read && mask.read,
            write: self.write && mask.write,
            execute: self.execute && mask.execute,
        }
    }

    /// The bits that either set has.
    pub open spec fn join(self, other: AclPerms) -> AclPerms {
        AclPerms {
            read: self.read || other.read,
            write: self.write || other.write,
            execute: self.execute || other.execute,
        }
    }

    /// All three permission bits set (the access a root principal has, or a fully
    /// permissive entry).
    pub fn all() -> (r: AclPerms)
        ensures
            r == AclPerms::full(),
    {
        AclPerms { read: true, write: true, execute: true }
    }

    /// The canonical `rwx` triple for these bits.
    pub fn rwx(self) -> (s: String)
        ensures
            s@ == self.triple(),
    {
        let mut s = String::new();
        s.push(if self.read { 'r' } else { '-' });
        s.push(if self.write { 'w' } else { '-' });
        s.push(if self.execute { 'x' } else { '-' });
        proof {
            assert(s@ =~= self.triple());
        }
        s
    }

    /// These bits intersected with `mask`, the ACL mask ceiling on a named or
    /// owning-group entry.
    pub fn masked(self, mask: AclPerms) -> (r: AclPerms)
        ensures
            r == self.meet(mask),
    {
        AclPerms {
            read: self.read && mask.read,
            write: self.write && mask.write,
            execute: self.execute && mask.execute,
        }
    }

    /// The union of two permission sets.
    pub fn union(self, other: AclPerms) -> (r: AclPerms)
        ensures
            r == self.join(other),
    {
        AclPerms {
            read: self.read || other.read,
            write: self.write || other.write,
            execute: self.execute || other.execute,
        }
    }

    /// Whether any permission bit is set.
    pub fn any(self) -> (r: bool)
        ensures
            r == (self != AclPerms::none()),
    {
        self.read || self.write || self.execute
    }
}

/// The kind of a POSIX ACL entry: which principal class it grants to.
#[derive(Debug, PartialEq, Eq)]
pub enum AclTag {
    /// The file owner (`user::`).
    UserObj,
    /// A named user (`user:<name>:`).
    User(String),
    /// The owning group (`group::`).
    GroupObj,
    /// A named group (`group:<name>:`).
    Group(String),
    /// The ACL mask (`mask::`), the ceiling on every named entry and the owning group.
    Mask,
    /// Everyone else (`other::`).
    Other,
}

/// The contents of an [`AclTag`].
#[verifier::ext_equal]
pub enum TagView {
    /// The file owner.
    UserObj,
    /// A named user.
    User(Seq<char>),
    /// The owning group.
    GroupObj,
    /// A named group.
    Group(Seq<char>),
    /// The ACL mask.
    Mask,
    /// Everyone else.
    Other,
}

impl View for AclTag {
    type V = TagView;

    open spec fn view(&self) -> TagView {
        match self {
            AclTag::UserObj => TagView::UserObj,
            AclTag::User(n) => TagView::User(n@),
            AclTag::GroupObj => TagView::GroupObj,
            AclTag::Group(n) => TagView::Group(n@),
            AclTag::Mask => TagView::Mask,
            AclTag::Other => TagView::Other,
        }
    }
}

impl Clone for AclTag {
    fn clone(&self) -> (r: Self)
        ensures
            r@ == self@,
    {
        match self {
            AclTag::UserObj => AclTag::UserObj,
            AclTag::User(n) => AclTag::User(n.clone()),
            AclTag::GroupObj => AclTag::GroupObj,
            AclTag::Group(n) => AclTag::Group(n.clone()),
            AclTag::Mask => AclTag::Mask,
            AclTag::Other => AclTag::Other,
        }
    }
}

impl TagView {
    /// Whether an entry of this kind says more than the mode bits do.
    pub open spec fn is_extension(self) -> bool {
        self is User || self is Group || self is Mask
    }
}

/// One parsed POSIX ACL entry: a tag and its permission bits.
#[derive(Debug, PartialEq, Eq)]
pub struct AclEntry {
    /// Which principal class this entry grants to.
    pub tag: AclTag,
    /// The bits this entry grants (before the mask).
    pub perms: AclPerms,
}

/// The contents of an [`AclEntry`].
#[verifier::ext_equal]
pub struct EntryView {
    /// Which principal class this entry grants to.
    pub tag: TagView,
    /// The bits this entry grants.
    pub perms: AclPerms,
}

impl View for AclEntry {
    type V = EntryView;

    open spec fn view(&self) -> EntryView {
        EntryView { tag: self.tag@, perms: self.perms }
    }
}

impl Clone for AclEntry {
    fn clone(&self) -> (r: Self)
        ensures
            r@ == self@,
    {
        AclEntry { tag: self.tag.clone(), perms: self.perms }
    }
}

/// The parsed access ACL of one inode, in the order `getfacl` reported it.
///
/// Default-ACL entries, which govern inheritance for new files, are not part of it.
#[derive(Debug, PartialEq, Eq)]
pub struct AclEntries {
    /// The entries.
    pub entries: Vec<AclEntry>,
}

/// The contents of a list of entries.
pub open spec fn entry_views(v: Seq<AclEntry>) -> Seq<EntryView> {
    v.map_values(|e: AclEntry| e@)
}

impl View for AclEntries {
    type V = Seq<EntryView>;

    open spec fn view(&self) -> Seq<EntryView> {
        entry_views(self.entries@)
    }
}

impl Default for AclEntries {
    /// An ACL without entries.
    fn default() -> (r: Self)
        ensures
            r@ == Seq::<EntryView>::empty(),
    {
        let r = AclEntries { entries: Vec::new() };
        proof {
            assert(r@ =~= Seq::<EntryView>::empty());
        }
        r
    }
}

impl Clone for AclEntries {
    fn clone(&self) -> (r: Self)
        ensures
            r@ == self@,
    {
        let mut entries: Vec<AclEntry> = Vec::new();
        let mut i: usize = 0;
        while i < self.entries.len()
            invariant
                i <= self.entries@.len(),
                entry_views(entries@) == self@.take(i as int),
            decreases self.entries@.len() - i,
        {
            let e = self.entries[i].clone();
            proof {
                assert(self@.take(i + 1) == self@.take(i as int).push(e@));
                assert(entry_views(entries@.push(e)) =~= entry_views(entries@).push(e@));
            }
            entries.push(e);
            i += 1;
        }
        proof {
            assert(self@.take(i as int) == self@);
        }
        AclEntries { entries }
    }
}

/// Whether an ACL carries a named user, named group, or mask entry.
pub open spec fn extended(acl: Seq<EntryView>) -> bool {
    exists|i: int| 0 <= i < acl.len() && (#[trigger] acl[i]).tag.is_extension()
}

impl AclEntries {
    /// Whether this ACL is *extended*: more than the trivial `user::`, `group::`,
    /// `other::` that merely restates the mode bits.
    pub fn is_extended(&self) -> (r: bool)
        ensures
            r == extended(self@),
    {
        let mut i: usize = 0;
        while i < self.entries.len()
            invariant
                i <= self.entries@.len(),
                forall|j: int| 0 <= j < i ==> !(#[trigger] self@[j]).tag.is_extension(),
            decreases self.entries@.len() - i,
        {
            proof {
                assert(self@[i as int] == self.entries@[i as int]@);
            }
            match &self.entries[i].tag {
                AclTag::User(_) => {
                    return true;
                },
                AclTag::Group(_) => {
                    return true;
                },
                AclTag::Mask => {
                    return true;
                },
                _ => {},
            }
            i += 1;
        }
        false
    }

    /// Whether this ACL has no entries at all.
    pub fn is_empty(&self) -> (r: bool)
        ensures
            r == (self@.len() == 0),
    {
        self.entries.len() == 0
    }
}

// ---------------------------------------------------------------------------
// The dump format
// ---------------------------------------------------------------------------

/// One permission character: the letter grants, `-` does not, nothing else is read.
pub open spec fn perm_bit_of(c: char, letter: char) -> Option<bool> {
    if c == letter {
        Some(true)
    } else if c == '-' {
        Some(false)
    } else {
        None
    }
}

/// The permissions a field of exactly three characters spells.
pub open spec fn perms_of(field: Seq<char>) -> Option<AclPerms> {
    if field.len() != 3 {
        None
    } else {
        match (
            perm_bit_of(field[0], 'r'),
            perm_bit_of(field[1], 'w'),
            perm_bit_of(field[2], 'x'),
        ) {
            (Some(r), Some(w), Some(x)) => Some(AclPerms { read: r, write: w, execute: x }),
            _ => None,
        }
    }
}

/// The kind of entry that a tag word and a qualifier name.
pub open spec fn tag_of(word: Seq<char>, qualifier: Seq<char>) -> Option<TagView> {
    if word == "user"@ || word == "u"@ {
        Some(
            if qualifier.len() == 0 {
                TagView::UserObj
            } else {
                TagView::User(qualifier)
            },
        )
    } else if word == "group"@ || word == "g"@ {
        Some(
            if qualifier.len() == 0 {
                TagView::GroupObj
            } else {
                TagView::Group(qualifier)
            },
        )
    } else if word == "mask"@ || word == "m"@ {
        Some(TagView::Mask)
    } else if word == "other"@ || word == "o"@ {
        Some(TagView::Other)
    } else {
        None
    }
}

/// What is left of an entry line once a comment and outer white space are gone.
pub open spec fn entry_core(line: Seq<char>) -> Seq<char> {
    text::trim(line.take(text::index_of(line, '#') as int))
}

/// The entry `word:qualifier:perms` that a line spells, if it spells one and is not a
/// `default:` (inheritance) entry.
pub open spec fn entry_of(line: Seq<char>) -> Option<EntryView> {
    let core = entry_core(line);
    let i = text::index_of(core, ':') as int;
    let rest = core.skip(i + 1);
    let j = text::index_of(rest, ':') as int;
    if text::starts_with(core, "default:"@) || i >= core.len() || j >= rest.len() {
        None
    } else {
        match (perms_of(rest.skip(j + 1)), tag_of(core.take(i), rest.take(j))) {
            (Some(perms), Some(tag)) => Some(EntryView { tag, perms }),
            _ => None,
        }
    }
}

/// The ACL of one file in a dump.
#[verifier::ext_equal]
pub struct FileAclView {
    /// The file's path.
    pub path: Seq<char>,
    /// Its entries.
    pub acl: Seq<EntryView>,
}

/// Whether a line opens the record of a file.
pub open spec fn is_header(line: Seq<char>) -> bool {
    text::starts_with(text::trim_end(line), "# file:"@)
}

/// The path that a header line names.
pub open spec fn header_path(line: Seq<char>) -> Seq<char> {
    text::trim(text::trim_end(line).skip("# file:"@.len() as int))
}

/// The entries that `lines` spell up to the next header.
pub open spec fn entries_until_header(lines: Seq<Seq<char>>) -> Seq<EntryView>
    decreases lines.len(),
{
    if lines.len() == 0 || is_header(lines[0]) {
        seq![]
    } else {
        match entry_of(text::trim_end(lines[0])) {
            Some(e) => seq![e] + entries_until_header(lines.skip(1)),
            None => entries_until_header(lines.skip(1)),
        }
    }
}

/// The records of a dump, one for each header.
pub open spec fn dump_records(lines: Seq<Seq<char>>) -> Seq<FileAclView>
    decreases lines.len(),
{
    if lines.len() == 0 {
        seq![]
    } else if is_header(lines[0]) {
        seq![
            FileAclView {
                path: header_path(lines[0]),
                acl: entries_until_header(lines.skip(1)),
            },
        ] + dump_records(lines.skip(1))
    } else {
        dump_records(lines.skip(1))
    }
}

/// The records of a dump given as text.
pub open spec fn dump(t: Seq<char>) -> Seq<FileAclView> {
    dump_records(text::lines(t))
}

/// The contents of one parsed record.
pub open spec fn file_acl(p: (String, AclEntries)) -> FileAclView {
    FileAclView { path: p.0@, acl: p.1@ }
}

/// The contents of parsed records.
pub open spec fn file_acls(v: Seq<(String, AclEntries)>) -> Seq<FileAclView> {
    v.map_values(|p: (String, AclEntries)| file_acl(p))
}

/// Interpret one permission character.
fn perm_bit(c: char, letter: char) -> (r: Option<bool>)
    ensures
        r == perm_bit_of(c, letter),
{
    if c == letter {
        Some(true)
    } else if c == '-' {
        Some(false)
    } else {
        None
    }
}

/// Parse an exactly-three-character permission field.
fn perms_in(field: &[char]) -> (r: Option<AclPerms>)
    ensures
        r == perms_of(field@),
{
    if field.len() != 3 {
        return None;
    }
    match (perm_bit(field[0], 'r'), perm_bit(field[1], 'w'), perm_bit(field[2], 'x')) {
        (Some(r), Some(w), Some(x)) => Some(AclPerms { read: r, write: w, execute: x }),
        _ => None,
    }
}

/// Parse an exactly-three-character `rwx` permission field (`rw-`, `r-x`, `---`).
pub fn parse_perms(field: &str) -> (r: Option<AclPerms>)
    ensures
        r == perms_of(field@),
{
    let cs = text::chars_of(field);
    perms_in(cs.as_slice())
}

/// The entry of a parsed line, if there is one.
pub open spec fn opt_entry(e: Option<AclEntry>) -> Option<EntryView> {
    match e {
        Some(e) => Some(e@),
        None => None,
    }
}

/// The tag that a word and a qualifier name.
fn tag_in(word: &[char], qualifier: &[char]) -> (r: Option<AclTag>)
    ensures
        match r {
            Some(t) => tag_of(word@, qualifier@) == Some(t@),
            None => tag_of(word@, qualifier@) is None,
        },
{
    if text::is_text(word, "user") || text::is_text(word, "u") {
        if qualifier.len() == 0 {
            Some(AclTag::UserObj)
        } else {
            Some(AclTag::User(text::string_of(qualifier)))
        }
    } else if text::is_text(word, "group") || text::is_text(word, "g") {
        if qualifier.len() == 0 {
            Some(AclTag::GroupObj)
        } else {
            Some(AclTag::Group(text::string_of(qualifier)))
        }
    } else if text::is_text(word, "mask") || text::is_text(word, "m") {
        Some(AclTag::Mask)
    } else if text::is_text(word, "other") || text::is_text(word, "o") {
        Some(AclTag::Other)
    } else {
        None
    }
}

/// Parse the entry of one line.
fn entry_in(line: &[char]) -> (r: Option<AclEntry>)
    ensures
        opt_entry(r) == entry_of(line@),
{
    let k = text::find_char(line, '#');
    let core = text::trim_both(&line[0..k]);
    if text::has_prefix(core, "default:") {
        return None;
    }
    let i = text::find_char(core, ':');
    if i == core.len() {
        return None;
    }
    let rest = &core[i + 1..core.len()];
    let j = text::find_char(rest, ':');
    if j == rest.len() {
        return None;
    }
    match (perms_in(&rest[j + 1..rest.len()]), tag_in(&core[0..i], &rest[0..j])) {
        (Some(perms), Some(tag)) => Some(AclEntry { tag, perms }),
        _ => None,
    }
}

/// Parse one `getfacl` entry line, or `None` if the line is a comment, a `default:`
/// (inheritance) entry, or not a recognizable entry.
///
/// The `#effective:` suffix that `getfacl` appends when the mask narrows an entry is
/// dropped: the granted bits before the mask are what is recorded.
pub fn parse_acl_entry(line: &str) -> (r: Option<AclEntry>)
    ensures
        opt_entry(r) == entry_of(line@),
{
    let cs = text::chars_of(line);
    entry_in(cs.as_slice())
}

/// Parse a `getfacl --absolute-names` dump into per-inode ACLs.
///
/// Each record begins with a `# file: <path>` header followed by comments and entry
/// lines. Unrecognized lines are ignored, so a malformed line cannot abort the parse.
pub fn parse_getfacl_dump(text: &str) -> (out: Vec<(String, AclEntries)>)
    ensures
        file_acls(out@) == dump(text@),
{
    let cs = text::chars_of(text);
    let lines = text::split_lines(cs.as_slice());
    let mut out: Vec<(String, AclEntries)> = Vec::new();
    let mut i: usize = 0;
    proof {
        assert(text::slices(lines@).skip(0) == text::slices(lines@));
    }
    // Lines before the first header belong to no record.
    while i < lines.len() && !text::has_prefix(text::trim_back(lines[i]), "# file:")
        invariant
            text::slices(lines@) == text::lines(text@),
            i <= lines@.len(),
            dump(text@) == dump_records(text::slices(lines@).skip(i as int)),
        decreases lines@.len() - i,
    {
        proof {
            let l = text::slices(lines@).skip(i as int);
            assert(l[0] == lines@[i as int]@);
            assert(l.skip(1) == text::slices(lines@).skip(i + 1));
        }
        i += 1;
    }
    proof {
        assert(file_acls(out@) =~= Seq::<FileAclView>::empty());
    }
    while i < lines.len()
        invariant
            text::slices(lines@) == text::lines(text@),
            i <= lines@.len(),
            i < lines@.len() ==> is_header(text::slices(lines@)[i as int]),
            dump(text@) == file_acls(out@) + dump_records(text::slices(lines@).skip(i as int)),
        decreases lines@.len() - i,
    {
        let ghost all = text::slices(lines@);
        let ghost start = i as int;
        let head = text::trim_back(lines[i]);
        let path = header_path_of(head);
        let mut entries: Vec<AclEntry> = Vec::new();
        proof {
            assert(all.skip(start)[0] == all[start]);
            assert(all.skip(start).skip(1) == all.skip(start + 1));
        }
        i += 1;
        while i < lines.len() && !text::has_prefix(text::trim_back(lines[i]), "# file:")
            invariant
                all == text::slices(lines@),
                start < i <= lines@.len(),
                entries_until_header(all.skip(start + 1)) == entry_views(entries@)
                    + entries_until_header(all.skip(i as int)),
                dump_records(all.skip(start + 1)) == dump_records(all.skip(i as int)),
            decreases lines@.len() - i,
        {
            let ghost was = entry_views(entries@);
            proof {
                let l = all.skip(i as int);
                assert(l[0] == lines@[i as int]@);
                assert(l.skip(1) == all.skip(i + 1));
            }
            match entry_in(text::trim_back(lines[i])) {
                Some(e) => {
                    entries.push(e);
                    proof {
                        assert(entry_views(entries@) =~= was.push(e@));
                        assert(was.push(e@) + entries_until_header(all.skip(i + 1)) =~= was + (seq![
                            e@,
                        ] + entries_until_header(all.skip(i + 1))));
                    }
                },
                None => {},
            }
            i += 1;
        }
        proof {
            if i < lines@.len() {
                assert(all.skip(i as int)[0] == lines@[i as int]@);
            }
            assert(entries_until_header(all.skip(i as int)) == Seq::<EntryView>::empty());
            assert(entries_until_header(all.skip(start + 1)) =~= entry_views(entries@));
        }
        let ghost was = file_acls(out@);
        let ghost rec = FileAclView { path: path@, acl: entry_views(entries@) };
        out.push((path, AclEntries { entries }));
        proof {
            assert(file_acls(out@) =~= was.push(rec));
            assert(was.push(rec) + dump_records(all.skip(i as int)) =~= was + (seq![rec]
                + dump_records(all.skip(i as int))));
        }
    }
    proof {
        assert(dump_records(text::slices(lines@).skip(i as int)) == Seq::<FileAclView>::empty());
        assert(dump(text@) =~= file_acls(out@));
    }
    out
}

/// The path of a trimmed header line.
fn header_path_of(head: &[char]) -> (r: String)
    requires
        text::starts_with(head@, "# file:"@),
    ensures
        r@ == text::trim(head@.skip("# file:"@.len() as int)),
{
    proof {
        reveal_strlit("# file:");
    }
    text::string_of(text::trim_both(&head[7..head.len()]))
}

// ---------------------------------------------------------------------------
// Reading
// ---------------------------------------------------------------------------

/// How many inode paths to pass to one `getfacl` invocation: well under the argv
/// limit even with long paths; a chunk that fails degrades only its own paths.
pub const GETFACL_PATH_CHUNK: usize = 256;

/// A best-effort command runner for scan-time reads.
///
/// A runner hands back whatever the command wrote to standard output, whatever its
/// exit status, and nothing where it cannot be spawned.
pub trait ScanRunner: Sized {
    /// The outputs that running `binary` with `args` may give from this state, and the
    /// states it may leave: any, unless an implementor says otherwise.
    open spec fn may_reply(
        &self,
        binary: Seq<char>,
        args: Seq<Seq<char>>,
        out: Seq<u8>,
        after: Self,
    ) -> bool {
        true
    }

    /// Run `binary` with `args`, returning whatever it wrote to standard output.
    fn run_capture(&mut self, binary: &str, args: &[String]) -> (out: Vec<u8>)
        ensures
            Self::may_reply(
                &*old(self),
                binary@,
                text::views(args@),
                out@,
                *final(self),
            ),
    ;
}

/// A runner behind a mutable reference: its owner keeps it, and can look at it after the
/// reads.
impl<R: ScanRunner> ScanRunner for &mut R {
    open spec fn may_reply(
        &self,
        binary: Seq<char>,
        args: Seq<Seq<char>>,
        out: Seq<u8>,
        after: Self,
    ) -> bool {
        (**self).may_reply(binary, args, out, *after)
    }

    fn run_capture(&mut self, binary: &str, args: &[String]) -> (out: Vec<u8>) {
        (**self).run_capture(binary, args)
    }
}

/// A source of parsed per-inode POSIX ACLs for the inode paths of a walk.
///
/// The read is best-effort: a path absent from the result has no readable ACL.
pub trait AclSource: Sized {
    /// The ACLs that a read of `paths` may give from this state, and the states it may
    /// leave: any, unless an implementor says otherwise.
    open spec fn may_read(
        &self,
        paths: Seq<Seq<char>>,
        acls: Seq<FileAclView>,
        after: Self,
    ) -> bool {
        true
    }

    /// Read and parse the ACLs of the given inode `paths`, as `(path, entries)` pairs.
    fn read_acls(&mut self, paths: &[String]) -> (r: Vec<(String, AclEntries)>)
        ensures
            old(self).may_read(text::views(paths@), file_acls(r@), *final(self)),
    ;
}

/// The `k`-th chunk of `paths`.
pub open spec fn path_chunk(paths: Seq<Seq<char>>, k: int) -> Seq<Seq<char>> {
    let from = k * GETFACL_PATH_CHUNK;
    let to = from + GETFACL_PATH_CHUNK;
    paths.subrange(
        from,
        if to < paths.len() {
            to
        } else {
            paths.len() as int
        },
    )
}

/// The arguments that read a chunk: each path by its own name, never a subtree, and
/// names for qualifiers, never numbers.
pub open spec fn chunk_args(chunk: Seq<Seq<char>>) -> Seq<Seq<char>> {
    seq!["--absolute-names"@] + chunk
}

/// The records of the first `n` replies, in order.
pub open spec fn parsed_upto(replies: Seq<Seq<u8>>, n: nat) -> Seq<FileAclView>
    decreases n,
{
    if n == 0 {
        seq![]
    } else {
        parsed_upto(replies, (n - 1) as nat) + dump(text::lossy_text(replies[n - 1]))
    }
}

/// Whether reads of the first chunks of `paths`, in order and no others, gave `replies`
/// and led a runner from one state to another.
pub open spec fn asked<R: ScanRunner>(
    from: R,
    binary: Seq<char>,
    paths: Seq<Seq<char>>,
    replies: Seq<Seq<u8>>,
    to: R,
) -> bool
    decreases replies.len(),
{
    if replies.len() == 0 {
        from == to
    } else {
        exists|mid: R|
            asked(from, binary, paths, replies.drop_last(), mid) && #[trigger] mid.may_reply(
                binary,
                chunk_args(path_chunk(paths, replies.len() - 1)),
                replies.last(),
                to,
            )
    }
}

/// One more read.
proof fn lemma_asked_more<R: ScanRunner>(
    from: R,
    binary: Seq<char>,
    paths: Seq<Seq<char>>,
    replies: Seq<Seq<u8>>,
    mid: R,
    out: Seq<u8>,
    to: R,
)
    requires
        asked(from, binary, paths, replies, mid),
        mid.may_reply(binary, chunk_args(path_chunk(paths, replies.len() as int)), out, to),
    ensures
        asked(from, binary, paths, replies.push(out), to),
{
    let more = replies.push(out);
    assert(more.drop_last() =~= replies);
    assert(mid.may_reply(
        binary,
        chunk_args(path_chunk(paths, more.len() - 1)),
        more.last(),
        to,
    ));
}

/// Whether `replies` are as many as there are chunks of `paths`.
pub open spec fn one_per_chunk(paths: Seq<Seq<char>>, replies: Seq<Seq<u8>>) -> bool {
    (replies.len() - 1) * GETFACL_PATH_CHUNK < paths.len() <= replies.len() * GETFACL_PATH_CHUNK
}

/// Whether reading `paths` chunk by chunk, from one state of a runner, gave `acls` and
/// left another.
pub open spec fn read_by<R: ScanRunner>(
    from: R,
    binary: Seq<char>,
    paths: Seq<Seq<char>>,
    acls: Seq<FileAclView>,
    to: R,
) -> bool {
    exists|replies: Seq<Seq<u8>>|
        {
            &&& #[trigger] asked(from, binary, paths, replies, to)
            &&& one_per_chunk(paths, replies)
            &&& acls == parsed_upto(replies, replies.len())
        }
}

/// Reads ACLs with argv-batched `getfacl` calls over the walker's paths.
pub struct GetfaclReader<R: ScanRunner> {
    /// Runs the commands.
    pub runner: R,
    /// The `getfacl` binary.
    pub getfacl_bin: String,
}

impl<R: ScanRunner> GetfaclReader<R> {
    /// Construct with an explicit runner and `getfacl` binary name.
    pub fn new(runner: R, getfacl_bin: &str) -> (r: Self)
        ensures
            r.runner == runner,
            r.getfacl_bin@ == getfacl_bin@,
    {
        GetfaclReader { runner, getfacl_bin: getfacl_bin.to_owned() }
    }

    /// The reader of the real `getfacl` on `$PATH`.
    pub fn production(runner: R) -> (r: Self)
        ensures
            r.runner == runner,
            r.getfacl_bin@ == "getfacl"@,
    {
        GetfaclReader::new(runner, "getfacl")
    }
}

/// The `getfacl` arguments for one chunk of paths.
pub fn getfacl_chunk_args(chunk: &[String]) -> (args: Vec<String>)
    ensures
        text::views(args@) == chunk_args(text::views(chunk@)),
{
    let mut args: Vec<String> = Vec::new();
    args.push("--absolute-names".to_owned());
    let mut i: usize = 0;
    proof {
        assert(text::views(args@) =~= chunk_args(text::views(chunk@).take(0)));
    }
    while i < chunk.len()
        invariant
            i <= chunk@.len(),
            text::views(args@) == chunk_args(text::views(chunk@).take(i as int)),
        decreases chunk@.len() - i,
    {
        let ghost was = text::views(args@);
        args.push(chunk[i].clone());
        i += 1;
        proof {
            assert(text::views(args@) =~= was.push(chunk@[i - 1]@));
            assert(text::views(args@) =~= chunk_args(text::views(chunk@).take(i as int)));
        }
    }
    proof {
        assert(text::views(chunk@).take(i as int) =~= text::views(chunk@));
    }
    args
}

impl<R: ScanRunner> AclSource for GetfaclReader<R> {
    open spec fn may_read(
        &self,
        paths: Seq<Seq<char>>,
        acls: Seq<FileAclView>,
        after: Self,
    ) -> bool {
        &&& read_by(self.runner, self.getfacl_bin@, paths, acls, after.runner)
        &&& after.getfacl_bin == self.getfacl_bin
    }

    fn read_acls(&mut self, paths: &[String]) -> (out: Vec<(String, AclEntries)>) {
        let mut out: Vec<(String, AclEntries)> = Vec::new();
        let ghost mut replies: Seq<Seq<u8>> = seq![];
        let ghost bin = self.getfacl_bin@;
        let n = paths.len();
        let mut start: usize = 0;
        proof {
            assert(file_acls(out@) =~= parsed_upto(replies, 0));
        }
        while start < n
            invariant
                n == paths@.len(),
                start <= n,
                bin == old(self).getfacl_bin@,
                self.getfacl_bin == old(self).getfacl_bin,
                start == n || start == replies.len() * GETFACL_PATH_CHUNK,
                (replies.len() - 1) * GETFACL_PATH_CHUNK < n,
                start <= replies.len() * GETFACL_PATH_CHUNK,
                file_acls(out@) == parsed_upto(replies, replies.len()),
                asked(old(self).runner, bin, text::views(paths@), replies, self.runner),
            decreases n - start,
        {
            let end: usize = if n - start > GETFACL_PATH_CHUNK {
                start + GETFACL_PATH_CHUNK
            } else {
                n
            };
            let chunk = &paths[start..end];
            let args = getfacl_chunk_args(chunk);
            let ghost k = replies.len() as int;
            let ghost runner = self.runner;
            let stdout = self.runner.run_capture(&self.getfacl_bin, args.as_slice());
            proof {
                assert(text::views(chunk@) =~= path_chunk(text::views(paths@), k));
                lemma_asked_more(
                    old(self).runner,
                    bin,
                    text::views(paths@),
                    replies,
                    runner,
                    stdout@,
                    self.runner,
                );
            }
            let t = text::decode_lossy(stdout.as_slice());
            let mut pairs = parse_getfacl_dump(&t);
            let ghost was = file_acls(out@);
            let ghost more = file_acls(pairs@);
            out.append(&mut pairs);
            proof {
                let before = replies;
                replies = replies.push(stdout@);
                lemma_parsed_prefix(before, stdout@, before.len());
                assert(file_acls(out@) =~= was + more);
            }
            start = end;
        }
        proof {
            assert(asked(old(self).runner, bin, text::views(paths@), replies, self.runner));
            assert(one_per_chunk(text::views(paths@), replies));
            assert(read_by(
                old(self).runner,
                bin,
                text::views(paths@),
                file_acls(out@),
                self.runner,
            ));
        }
        out
    }
}

/// The records of the first replies do not depend on later ones.
proof fn lemma_parsed_prefix(replies: Seq<Seq<u8>>, more: Seq<u8>, n: nat)
    requires
        n <= replies.len(),
    ensures
        parsed_upto(replies.push(more), n) == parsed_upto(replies, n),
    decreases n,
{
    if n > 0 {
        lemma_parsed_prefix(replies, more, (n - 1) as nat);
        assert(replies.push(more)[n - 1] == replies[n - 1]);
    }
}

/// An in-memory [`AclSource`]: returns its canned `(path, entries)` pairs verbatim,
/// whatever paths are asked for.
#[derive(Debug, Clone)]
pub struct FakeAclSource {
    /// The canned pairs.
    pub acls: Vec<(String, AclEntries)>,
}

impl FakeAclSource {
    /// An empty source (no inode has an ACL).
    pub fn new() -> (r: Self)
        ensures
            file_acls(r.acls@) == Seq::<FileAclView>::empty(),
    {
        let r = FakeAclSource { acls: Vec::new() };
        proof {
            assert(file_acls(r.acls@) =~= Seq::<FileAclView>::empty());
        }
        r
    }

    /// Add one inode's parsed ACL.
    pub fn with(self, path: &str, entries: AclEntries) -> (r: Self)
        ensures
            file_acls(r.acls@) == file_acls(self.acls@).push(
                FileAclView { path: path@, acl: entries@ },
            ),
    {
        let mut acls = self.acls;
        let ghost was = file_acls(acls@);
        let ghost e = entries@;
        acls.push((path.to_owned(), entries));
        proof {
            assert(file_acls(acls@) =~= was.push(FileAclView { path: path@, acl: e }));
        }
        FakeAclSource { acls }
    }
}

impl AclSource for FakeAclSource {
    open spec fn may_read(
        &self,
        paths: Seq<Seq<char>>,
        acls: Seq<FileAclView>,
        after: Self,
    ) -> bool {
        acls == file_acls(self.acls@) && after == *self
    }

    fn read_acls(&mut self, paths: &[String]) -> (out: Vec<(String, AclEntries)>) {
        let mut out: Vec<(String, AclEntries)> = Vec::new();
        let mut i: usize = 0;
        proof {
            assert(file_acls(out@) =~= file_acls(self.acls@).take(0));
        }
        while i < self.acls.len()
            invariant
                *self == *old(self),
                i <= self.acls@.len(),
                file_acls(out@) == file_acls(self.acls@).take(i as int),
            decreases self.acls@.len() - i,
        {
            let p = (self.acls[i].0.clone(), self.acls[i].1.clone());
            let ghost was = file_acls(out@);
            proof {
                assert(file_acls(out@.push(p)) =~= was.push(file_acl(p)));
                assert(file_acls(self.acls@).take(i + 1) =~= was.push(
                    file_acl(self.acls@[i as int]),
                ));
                assert(file_acl(p) =~= file_acl(self.acls@[i as int]));
            }
            out.push(p);
            i += 1;
        }
        proof {
            assert(file_acls(self.acls@).take(i as int) =~= file_acls(self.acls@));
        }
        out
    }
}

// ---------------------------------------------------------------------------
// Laws
// ---------------------------------------------------------------------------

/// The first `n` chunks of `paths`, one after the other.
pub open spec fn chunks_upto(paths: Seq<Seq<char>>, n: nat) -> Seq<Seq<char>>
    decreases n,
{
    if n == 0 {
        seq![]
    } else {
        chunks_upto(paths, (n - 1) as nat) + path_chunk(paths, n - 1)
    }
}

/// As long as they are full, the chunks are the paths that they span.
proof fn lemma_chunks(paths: Seq<Seq<char>>, n: nat)
    requires
        n * GETFACL_PATH_CHUNK <= paths.len(),
    ensures
        chunks_upto(paths, n) == paths.take(n * GETFACL_PATH_CHUNK),
    decreases n,
{
    if n > 0 {
        lemma_chunks(paths, (n - 1) as nat);
        assert((n - 1) * GETFACL_PATH_CHUNK + GETFACL_PATH_CHUNK == n * GETFACL_PATH_CHUNK);
        assert(paths.take((n - 1) * GETFACL_PATH_CHUNK) + path_chunk(paths, n - 1) =~= paths.take(
            n * GETFACL_PATH_CHUNK,
        ));
    } else {
        assert(paths.take(0) =~= seq![]);
    }
}

/// The reads ask for every path once, in order, and for no other; none asks for more
/// paths than fit in one, and none for nothing.
pub proof fn reads_ask_for_every_path(paths: Seq<Seq<char>>, replies: Seq<Seq<u8>>)
    requires
        one_per_chunk(paths, replies),
    ensures
        chunks_upto(paths, replies.len()) == paths,
        forall|k: int|
            0 <= k < replies.len() ==> 0 < (#[trigger] path_chunk(paths, k)).len()
                <= GETFACL_PATH_CHUNK,
{
    let n = replies.len();
    assert forall|k: int| 0 <= k < n implies 0 < (#[trigger] path_chunk(paths, k)).len()
        <= GETFACL_PATH_CHUNK by {
        assert(k * GETFACL_PATH_CHUNK <= (n - 1) * GETFACL_PATH_CHUNK) by (nonlinear_arith)
            requires
                0 <= k < n,
        ;
    }
    if n > 0 {
        lemma_chunks(paths, (n - 1) as nat);
        assert(paths.take((n - 1) * GETFACL_PATH_CHUNK) + path_chunk(paths, n - 1) =~= paths);
    } else {
        assert(chunks_upto(paths, 0) =~= paths);
    }
}

/// Bits that are written out are read back.
pub proof fn permissions_read_back(p: AclPerms)
    ensures
        perms_of(p.triple()) == Some(p),
{
}

/// What is spelled in one way only is read: three letters, each in its place or a dash.
pub proof fn permissions_have_one_spelling(field: Seq<char>)
    ensures
        perms_of(field) matches Some(p) ==> p.triple() == field,
{
    if perms_of(field) is Some {
        assert(perms_of(field)->0.triple() =~= field);
    }
}

/// An ACL of the owner, the owning group and the others alone is no extended one.
pub proof fn minimal_acls_are_trivial(acl: Seq<EntryView>)
    requires
        forall|i: int|
            0 <= i < acl.len() ==> {
                let t = (#[trigger] acl[i]).tag;
                t is UserObj || t is GroupObj || t is Other
            },
    ensures
        !extended(acl),
{
}

/// Bit by bit: a set that is met with a mask has the bits that both have, one that is joined
/// with another those that either has.
pub proof fn bits_are_met_and_joined(p: AclPerms, q: AclPerms)
    ensures
        p.meet(q).read <==> p.read && q.read,
        p.meet(q).write <==> p.write && q.write,
        p.meet(q).execute <==> p.execute && q.execute,
        p.join(q).read <==> p.read || q.read,
        p.join(q).write <==> p.write || q.write,
        p.join(q).execute <==> p.execute || q.execute,
        p.meet(AclPerms::full()) == p,
        p.join(AclPerms::none()) == p,
        p.meet(AclPerms::none()) == AclPerms::none(),
        p.join(AclPerms::full()) == AclPerms::full(),
        AclPerms::full().read && AclPerms::full().write && AclPerms::full().execute,
        p == AclPerms::none() <==> !p.read && !p.write && !p.execute,
{
}

/// The three characters of a set: `r`, `w` and `x`, in this order, each for a bit that is
/// set, and a dash for one that is not.
pub proof fn bits_by_their_letters(p: AclPerms)
    ensures
        p.triple().len() == 3,
        p.triple()[0] == 'r' <==> p.read,
        p.triple()[0] == '-' <==> !p.read,
        p.triple()[1] == 'w' <==> p.write,
        p.triple()[1] == '-' <==> !p.write,
        p.triple()[2] == 'x' <==> p.execute,
        p.triple()[2] == '-' <==> !p.execute,
{
}

/// An ACL is extended where, and only where, it has an entry of a named user, of a named
/// group or of the mask.
pub proof fn extended_acls_have_more_than_the_mode(acl: Seq<EntryView>)
    ensures
        extended(acl) <==> exists|i: int|
            {
                &&& 0 <= i < acl.len()
                &&& ((#[trigger] acl[i]).tag is User || acl[i].tag is Group || acl[i].tag is Mask)
            },
{
}

/// The kinds of entries: `user` and `group` are named where there is a qualifier and the
/// owner's and the owning group's where there is none; `mask` and `other` need none. Each
/// word has a form of one letter, and no other word is an entry's.
pub proof fn entries_by_word(word: Seq<char>, qualifier: Seq<char>)
    ensures
        tag_of(word, qualifier) == Some(TagView::UserObj) <==> (word == "user"@ || word == "u"@)
            && qualifier.len() == 0,
        tag_of(word, qualifier) == Some(TagView::User(qualifier)) <==> (word == "user"@ || word
            == "u"@) && qualifier.len() > 0,
        tag_of(word, qualifier) == Some(TagView::GroupObj) <==> (word == "group"@ || word == "g"@)
            && qualifier.len() == 0,
        tag_of(word, qualifier) == Some(TagView::Group(qualifier)) <==> (word == "group"@ || word
            == "g"@) && qualifier.len() > 0,
        tag_of(word, qualifier) == Some(TagView::Mask) <==> word == "mask"@ || word == "m"@,
        tag_of(word, qualifier) == Some(TagView::Other) <==> word == "other"@ || word == "o"@,
        tag_of(word, qualifier) is Some ==> word == "user"@ || word == "u"@ || word == "group"@
            || word == "g"@ || word == "mask"@ || word == "m"@ || word == "other"@ || word == "o"@,
{
    reveal_strlit("user");
    reveal_strlit("u");
    reveal_strlit("group");
    reveal_strlit("g");
    reveal_strlit("mask");
    reveal_strlit("m");
    reveal_strlit("other");
    reveal_strlit("o");
    assert("user"@.len() == 4 && "mask"@.len() == 4 && "user"@[0] == 'u' && "mask"@[0] == 'm');
    assert("group"@.len() == 5 && "other"@.len() == 5 && "group"@[0] == 'g' && "other"@[0] == 'o');
    assert("u"@[0] == 'u' && "g"@[0] == 'g' && "m"@[0] == 'm' && "o"@[0] == 'o');
    assert("u"@.len() == 1 && "g"@.len() == 1 && "m"@.len() == 1 && "o"@.len() == 1);
}

/// A line of three fields between colons is the entry of its word and qualifier with the
/// permissions of its last field, where all three are read; a `default` entry is none.
pub proof fn lines_of_three_fields(word: Seq<char>, qualifier: Seq<char>, field: Seq<char>)
    requires
        !word.contains(':') && !word.contains('#'),
        !qualifier.contains(':') && !qualifier.contains('#'),
        !field.contains('#'),
        word.len() > 0 && !text::is_space(word[0]),
        field.len() > 0 && !text::is_space(field.last()),
    ensures
        ({
            let line = word + seq![':'] + qualifier + seq![':'] + field;
            let e = entry_of(line);
            &&& word == "default"@ ==> e is None
            &&& word != "default"@ && tag_of(word, qualifier) is Some && perms_of(field) is Some
                ==> e == Some(
                EntryView { tag: tag_of(word, qualifier)->0, perms: perms_of(field)->0 },
            )
            &&& tag_of(word, qualifier) is None || perms_of(field) is None ==> e is None
        }),
{
    let line = word + seq![':'] + qualifier + seq![':'] + field;
    lemma_line_fields(word, qualifier, field);
    lemma_default_word(word, line);
    entries_by_word(word, qualifier);
}

/// The fields of a line of three.
proof fn lemma_line_fields(word: Seq<char>, qualifier: Seq<char>, field: Seq<char>)
    requires
        !word.contains(':') && !word.contains('#'),
        !qualifier.contains(':') && !qualifier.contains('#'),
        !field.contains('#'),
        word.len() > 0 && !text::is_space(word[0]),
        field.len() > 0 && !text::is_space(field.last()),
    ensures
        ({
            let line = word + seq![':'] + qualifier + seq![':'] + field;
            let rest = line.skip(word.len() as int + 1);
            &&& entry_core(line) == line
            &&& text::index_of(line, ':') == word.len()
            &&& line.take(word.len() as int) == word
            &&& text::index_of(rest, ':') == qualifier.len()
            &&& rest.take(qualifier.len() as int) == qualifier
            &&& rest.skip(qualifier.len() as int + 1) == field
            &&& word.len() < line.len()
            &&& qualifier.len() < rest.len()
        }),
{
    let line = word + seq![':'] + qualifier + seq![':'] + field;
    let n = word.len() as int;
    let m = qualifier.len() as int;
    assert forall|j: int| 0 <= j < line.len() implies #[trigger] line[j] != '#' by {
        if j < n {
            assert(line[j] == word[j]);
            assert(word.contains(word[j]));
        } else if n < j && j < n + 1 + m {
            assert(line[j] == qualifier[j - n - 1]);
            assert(qualifier.contains(qualifier[j - n - 1]));
        } else if j > n + 1 + m {
            assert(line[j] == field[j - n - m - 2]);
            assert(field.contains(field[j - n - m - 2]));
        }
    }
    text::lemma_index_of(line, '#', line.len() as int);
    assert(line.take(line.len() as int) =~= line);
    assert(line[0] == word[0]);
    assert(line.last() == field.last());
    text::lemma_trimmed(line);
    assert forall|j: int| 0 <= j < n implies #[trigger] line[j] != ':' by {
        assert(line[j] == word[j]);
        assert(word.contains(word[j]));
    }
    text::lemma_index_of(line, ':', n);
    let rest = line.skip(n + 1);
    assert(rest =~= qualifier + seq![':'] + field);
    assert forall|j: int| 0 <= j < m implies #[trigger] rest[j] != ':' by {
        assert(rest[j] == qualifier[j]);
        assert(qualifier.contains(qualifier[j]));
    }
    text::lemma_index_of(rest, ':', m);
    assert(rest.skip(m + 1) =~= field);
    assert(line.take(n) =~= word);
    assert(rest.take(m) =~= qualifier);
}

/// A line begins with `default:` exactly where its first field is `default`.
proof fn lemma_default_word(word: Seq<char>, line: Seq<char>)
    requires
        !word.contains(':'),
        word.len() < line.len(),
        line.take(word.len() as int) == word,
        line[word.len() as int] == ':',
    ensures
        text::starts_with(line, "default:"@) <==> word == "default"@,
{
    reveal_strlit("default:");
    reveal_strlit("default");
    let mark = "default:"@;
    assert(mark =~= "default"@.push(':'));
    if word == "default"@ {
        assert(line =~= mark + line.skip(8)) by {
            assert forall|j: int| 0 <= j < 8 implies line[j] == mark[j] by {
                if j < 7 {
                    assert(line.take(7)[j] == line[j]);
                    assert(mark[j] == "default"@[j]);
                }
            }
        }
        text::prefixes_and_suffixes(line.skip(8), mark);
    }
    if text::starts_with(line, mark) {
        text::prefixes_and_suffixes(line, mark);
        let t = choose|t: Seq<char>| line == #[trigger] (mark + t);
        let n = word.len() as int;
        assert forall|j: int| 0 <= j < 7 implies #[trigger] line[j] != ':' by {
            assert(line[j] == mark[j]);
        }
        assert(line[7] == mark[7]);
        if n > 7 {
            assert(line.take(n)[7] == line[7]);
            assert(word.contains(word[7]));
        }
        assert(n == 7);
        assert(word =~= "default"@) by {
            assert forall|j: int| 0 <= j < 7 implies word[j] == "default"@[j] by {
                assert(line.take(n)[j] == line[j]);
                assert(line[j] == mark[j]);
                assert(mark[j] == "default"@[j]);
            }
        }
    }
}

/// What follows a `#` on an entry line is a comment.
pub proof fn comments_say_nothing(line: Seq<char>, comment: Seq<char>)
    requires
        !line.contains('#'),
    ensures
        entry_of(line + seq!['#'] + comment) == entry_of(line),
{
    let long = line + seq!['#'] + comment;
    assert forall|j: int| 0 <= j < line.len() implies #[trigger] line[j] != '#' by {
        assert(line.contains(line[j]));
    }
    assert forall|j: int| 0 <= j < line.len() implies #[trigger] long[j] != '#' by {
        assert(long[j] == line[j]);
    }
    text::lemma_index_of(line, '#', line.len() as int);
    text::lemma_index_of(long, '#', line.len() as int);
    assert(long.take(line.len() as int) =~= line.take(line.len() as int));
}

/// A line with fewer than two colons before its comment is no entry.
pub proof fn entries_take_two_colons(line: Seq<char>)
    requires
        entry_of(line) is Some,
    ensures
        exists|i: int, j: int| 0 <= i < j < line.len() && line[i] == ':' && line[j] == ':',
{
    let end = text::index_of(line, '#') as int;
    text::the_first_position(line, '#');
    let cut = line.take(end);
    text::trimming_both_ends(cut);
    let (a, b) = choose|a: int, b: int|
        #![trigger cut.subrange(a, b)]
        {
            &&& 0 <= a <= b <= cut.len()
            &&& text::trim(cut) == cut.subrange(a, b)
            &&& forall|k: int|
                0 <= k < a || b <= k < cut.len() ==> text::is_space(#[trigger] cut[k])
        };
    let core = entry_core(line);
    let i = text::index_of(core, ':') as int;
    text::the_first_position(core, ':');
    let rest = core.skip(i + 1);
    let j = text::index_of(rest, ':') as int;
    text::the_first_position(rest, ':');
    assert(core[i] == ':');
    assert(rest[j] == ':');
    assert(rest[j] == core[i + 1 + j]);
    assert(line[a + i] == core[i]);
    assert(line[a + i + 1 + j] == core[i + 1 + j]);
}

/// A line opens a record exactly where it begins with `# file:`.
pub proof fn headers_begin_with_their_mark(line: Seq<char>)
    ensures
        is_header(line) <==> line.len() >= 7 && line.take(7) == "# file:"@,
{
    reveal_strlit("# file:");
    let mark = "# file:"@;
    assert(mark.len() == 7 && mark[6] == ':');
    let cut = text::trim_end(line);
    text::trimming_the_back(line);
    text::white_space_by_code_point(':');
    if is_header(line) {
        text::prefixes_and_suffixes(cut, mark);
        let t = choose|t: Seq<char>| cut == #[trigger] (mark + t);
        assert(line.take(7) =~= mark) by {
            assert forall|k: int| 0 <= k < 7 implies line[k] == mark[k] by {
                assert(cut[k] == mark[k]);
                assert(line.take(cut.len() as int)[k] == line[k]);
            }
        }
    }
    if line.len() >= 7 && line.take(7) == mark {
        assert(line[6] == line.take(7)[6]);
        assert(cut.len() >= 7) by {
            if cut.len() < 7 {
                assert(text::is_space(line[6]));
            }
        }
        assert(cut =~= mark + cut.skip(7)) by {
            assert forall|k: int| 0 <= k < 7 implies cut[k] == mark[k] by {
                assert(cut[k] == line[k]);
                assert(line.take(7)[k] == line[k]);
            }
        }
        text::prefixes_and_suffixes(cut.skip(7), mark);
    }
}

/// A header names what stands after its mark, without white space at either end.
pub proof fn headers_name_their_path(path: Seq<char>)
    requires
        path.len() > 0 && !text::is_space(path[0]) && !text::is_space(path.last()),
    ensures
        header_path("# file:"@ + path) == path,
        header_path("# file: "@ + path) == path,
{
    reveal_strlit("# file:");
    reveal_strlit("# file: ");
    text::white_space_by_code_point(' ');
    let a = "# file:"@ + path;
    let b = "# file: "@ + path;
    assert(a.last() == path.last() && b.last() == path.last());
    text::lemma_end_trimmed(a);
    text::lemma_end_trimmed(b);
    assert(a.skip(7) =~= path);
    assert(b.skip(7) =~= seq![' '] + path);
    text::lemma_trimmed(path);
    lemma_trimmed_after_a_space(path);
}

/// A space in front is trimmed.
proof fn lemma_trimmed_after_a_space(path: Seq<char>)
    requires
        path.len() > 0 && !text::is_space(path[0]) && !text::is_space(path.last()),
    ensures
        text::trim(seq![' '] + path) == path,
{
    let s = seq![' '] + path;
    text::trimming_both_ends(s);
    let (i, j) = choose|i: int, j: int|
        #![trigger s.subrange(i, j)]
        {
            &&& 0 <= i <= j <= s.len()
            &&& text::trim(s) == s.subrange(i, j)
            &&& forall|k: int| 0 <= k < i || j <= k < s.len() ==> text::is_space(#[trigger] s[k])
        };
    text::white_space_by_code_point(' ');
    assert(s[1] == path[0]);
    assert(s[s.len() - 1] == path.last());
    if j < s.len() {
        assert(text::is_space(s[s.len() - 1]));
    }
    if i > 1 {
        assert(text::is_space(s[1]));
    }
    if i == 0 {
        assert(text::trim(s)[0] == s[0]);
        assert(s[0] == ' ');
    }
    assert(s.subrange(1, s.len() as int) =~= path);
}

/// The lines of one record: each is read for itself, in order, up to the next header.
pub proof fn a_record_ends_at_the_next_header(
    a: Seq<Seq<char>>,
    b: Seq<Seq<char>>,
    line: Seq<char>,
)
    requires
        forall|i: int| 0 <= i < a.len() ==> !is_header(#[trigger] a[i]),
    ensures
        entries_until_header(Seq::<Seq<char>>::empty()).len() == 0,
        is_header(line) ==> entries_until_header(seq![line] + b).len() == 0,
        !is_header(line) ==> entries_until_header(seq![line]) == (match entry_of(
            text::trim_end(line),
        ) {
            Some(e) => seq![e],
            None => seq![],
        }),
        entries_until_header(a + b) == entries_until_header(a) + entries_until_header(b),
    decreases a.len(),
{
    reveal_with_fuel(entries_until_header, 2);
    assert((seq![line] + b)[0] == line);
    assert(seq![line].skip(1) =~= seq![]);
    if let Some(e) = entry_of(text::trim_end(line)) {
        assert(seq![e] + Seq::<EntryView>::empty() =~= seq![e]);
    }
    if a.len() == 0 {
        assert(a + b =~= b);
        assert(entries_until_header(a) + entries_until_header(b) =~= entries_until_header(b));
    } else {
        let rest = a.skip(1);
        assert forall|i: int| 0 <= i < rest.len() implies !is_header(#[trigger] rest[i]) by {
            assert(rest[i] == a[i + 1]);
        }
        a_record_ends_at_the_next_header(rest, b, line);
        assert((a + b).skip(1) =~= rest + b);
        assert((a + b)[0] == a[0]);
        if let Some(e) = entry_of(text::trim_end(a[0])) {
            assert(seq![e] + (entries_until_header(rest) + entries_until_header(b)) =~= (seq![e]
                + entries_until_header(rest)) + entries_until_header(b));
        }
    }
}

/// A dump has one record for each header, in order. Lines before the first header belong to
/// none; those after a header, up to the next, are its entries.
pub proof fn each_header_opens_a_record(
    before: Seq<Seq<char>>,
    header: Seq<char>,
    entries: Seq<Seq<char>>,
    rest: Seq<Seq<char>>,
)
    requires
        forall|i: int| 0 <= i < before.len() ==> !is_header(#[trigger] before[i]),
        forall|i: int| 0 <= i < entries.len() ==> !is_header(#[trigger] entries[i]),
        is_header(header),
        rest.len() == 0 || is_header(rest[0]),
    ensures
        dump_records(before).len() == 0,
        dump_records(before + seq![header] + entries + rest) == seq![
            FileAclView { path: header_path(header), acl: entries_until_header(entries) },
        ] + dump_records(rest),
    decreases before.len(),
{
    let all = before + seq![header] + entries + rest;
    if before.len() == 0 {
        assert(all.skip(1) =~= entries + rest);
        assert(all[0] == header);
        a_record_ends_at_the_next_header(entries, rest, header);
        assert(entries_until_header(entries) + entries_until_header(rest) =~= entries_until_header(
            entries,
        ));
        lemma_no_record(entries, rest);
    } else {
        let less = before.skip(1);
        assert forall|i: int| 0 <= i < less.len() implies !is_header(#[trigger] less[i]) by {
            assert(less[i] == before[i + 1]);
        }
        each_header_opens_a_record(less, header, entries, rest);
        assert(all.skip(1) =~= less + seq![header] + entries + rest);
        assert(all[0] == before[0]);
    }
}

/// Lines without a header open no record.
proof fn lemma_no_record(a: Seq<Seq<char>>, b: Seq<Seq<char>>)
    requires
        forall|i: int| 0 <= i < a.len() ==> !is_header(#[trigger] a[i]),
    ensures
        dump_records(a + b) == dump_records(b),
    decreases a.len(),
{
    if a.len() == 0 {
        assert(a + b =~= b);
    } else {
        let rest = a.skip(1);
        assert forall|i: int| 0 <= i < rest.len() implies !is_header(#[trigger] rest[i]) by {
            assert(rest[i] == a[i + 1]);
        }
        lemma_no_record(rest, b);
        assert((a + b).skip(1) =~= rest + b);
        assert((a + b)[0] == a[0]);
    }
}

/// A read asks for at most 256 paths, by their own names, and its reply is read as a dump:
/// what the replies say comes one after the other.
pub proof fn replies_are_read_in_order(
    chunk: Seq<Seq<char>>,
    replies: Seq<Seq<u8>>,
    more: Seq<u8>,
    t: Seq<char>,
)
    ensures
        GETFACL_PATH_CHUNK == 256,
        chunk_args(chunk).len() == chunk.len() + 1,
        chunk_args(chunk)[0] == "--absolute-names"@,
        chunk_args(chunk).skip(1) == chunk,
        parsed_upto(replies, 0).len() == 0,
        parsed_upto(replies.push(more), (replies.len() + 1) as nat) == parsed_upto(
            replies,
            replies.len(),
        ) + dump_records(text::lines(text::lossy_text(more))),
        dump(t) == dump_records(text::lines(t)),
{
    assert(chunk_args(chunk).skip(1) =~= chunk);
    lemma_parsed_prefix(replies, more, replies.len());
}

/// A read of no path asks nothing and says nothing. One of up to 256 paths asks once, for
/// all of them, and says what the reply spells.
pub proof fn small_reads_ask_once<R: ScanRunner>(
    from: R,
    binary: Seq<char>,
    paths: Seq<Seq<char>>,
    acls: Seq<FileAclView>,
    to: R,
)
    requires
        read_by(from, binary, paths, acls, to),
        paths.len() <= 256,
    ensures
        paths.len() == 0 ==> from == to && acls.len() == 0,
        paths.len() > 0 ==> exists|out: Seq<u8>|
            {
                &&& #[trigger] from.may_reply(binary, seq!["--absolute-names"@] + paths, out, to)
                &&& acls == dump_records(text::lines(text::lossy_text(out)))
            },
{
    let replies = choose|replies: Seq<Seq<u8>>|
        {
            &&& #[trigger] asked(from, binary, paths, replies, to)
            &&& one_per_chunk(paths, replies)
            &&& acls == parsed_upto(replies, replies.len())
        };
    reveal_with_fuel(asked, 2);
    reveal_with_fuel(parsed_upto, 2);
    if paths.len() > 0 {
        assert(replies.len() == 1);
        let out = replies[0];
        assert(replies.drop_last() =~= seq![]);
        assert(path_chunk(paths, 0) =~= paths);
        assert(Seq::<FileAclView>::empty() + dump(text::lossy_text(out)) =~= dump(
            text::lossy_text(out),
        ));
        assert(from.may_reply(binary, chunk_args(path_chunk(paths, 0)), out, to));
    } else {
        assert(replies.len() == 0);
    }
}

} // verus!
