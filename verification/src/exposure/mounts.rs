//! Mount-point classification: decide which filesystems the walk descends.
//!
//! The walk descends into local filesystems and skips only network filesystems and
//! kernel pseudo-filesystems, by filesystem type; a walk that refused every device
//! change would silently drop legitimate local submounts.

use vstd::prelude::*;

use crate::inspect;
use crate::text;
use vstd::hash_map::StringHashMap;

verus! {

broadcast use vstd::string::group_string_axioms;

/// Network filesystem types whose mounts the walk does not descend: reading them is
/// slow and can hang on an unreachable server.
pub const NETWORK_FSTYPES: [&'static str; 19] = [
    "nfs",
    "nfs4",
    "cifs",
    "smb3",
    "smbfs",
    "ncpfs",
    "afs",
    "9p",
    "ceph",
    "glusterfs",
    "lustre",
    "ocfs2",
    "fuse.sshfs",
    "sshfs",
    "fuse.davfs",
    "davfs",
    "fuse.glusterfs",
    "fuse.cephfs",
    "fuse.rclone",
];

/// Kernel pseudo-filesystem types. `tmpfs` and `ramfs` are deliberately not here: a
/// `tmpfs` such as `/tmp` is a real, world-writable surface.
pub const PSEUDO_FSTYPES: [&'static str; 20] = [
    "proc",
    "sysfs",
    "devtmpfs",
    "devpts",
    "cgroup",
    "cgroup2",
    "bpf",
    "tracefs",
    "debugfs",
    "securityfs",
    "pstore",
    "mqueue",
    "hugetlbfs",
    "configfs",
    "fusectl",
    "binfmt_misc",
    "autofs",
    "rpc_pipefs",
    "nsfs",
    "efivarfs",
];

/// Whether the walk skips filesystems of this type.
pub open spec fn skips_fstype(fstype: Seq<char>) -> bool {
    text::listed(text::str_views(NETWORK_FSTYPES@), fstype) || text::listed(
        text::str_views(PSEUDO_FSTYPES@),
        fstype,
    )
}

/// Whether a filesystem type is one the walk skips (network or pseudo).
pub fn is_skip_fstype(fstype: &str) -> (r: bool)
    ensures
        r == skips_fstype(fstype@),
{
    text::in_words(&NETWORK_FSTYPES, fstype) || text::in_words(&PSEUDO_FSTYPES, fstype)
}

// ---------------------------------------------------------------------------
// The mountinfo format
// ---------------------------------------------------------------------------

/// The character that an octal escape of three digits stands for, if it is one that
/// `mountinfo` uses: space, tab, newline, backslash.
pub open spec fn escaped_char(a: char, b: char, c: char) -> Option<char> {
    if a == '0' && b == '4' && c == '0' {
        Some(' ')
    } else if a == '0' && b == '1' && c == '1' {
        Some('\t')
    } else if a == '0' && b == '1' && c == '2' {
        Some('\n')
    } else if a == '1' && b == '3' && c == '4' {
        Some('\\')
    } else {
        None
    }
}

/// A path field with its octal escapes decoded. A backslash before `0` or `1` takes
/// the three characters after it; where they are not an escape they stand as they are.
pub open spec fn unescaped(s: Seq<char>) -> Seq<char>
    decreases s.len(),
{
    if s.len() == 0 {
        seq![]
    } else if s[0] != '\\' || s.len() == 1 || (s[1] != '0' && s[1] != '1') {
        seq![s[0]] + unescaped(s.skip(1))
    } else if s.len() < 4 {
        s
    } else {
        (match escaped_char(s[1], s[2], s[3]) {
            Some(c) => seq![c],
            None => s.take(4),
        }) + unescaped(s.skip(4))
    }
}

/// The position of the first field `-` at or after `i`, or the number of fields.
pub open spec fn dash_from(fields: Seq<Seq<char>>, i: nat) -> nat
    decreases fields.len() - i,
{
    if i >= fields.len() {
        fields.len()
    } else if fields[i as int] == seq!['-'] {
        i
    } else {
        dash_from(fields, i + 1)
    }
}

/// A mount point and its filesystem type.
#[verifier::ext_equal]
pub struct MountView {
    /// The mount point.
    pub point: Seq<char>,
    /// The filesystem type.
    pub fstype: Seq<char>,
}

/// The mount that a line describes: `id parent major:minor root mount_point options
/// [tag...] - fstype source super_opts`.
pub open spec fn mount_of(line: Seq<char>) -> Option<MountView> {
    let fields = text::split_on(line, ' ');
    let d = dash_from(fields, 5);
    if fields.len() >= 5 && d + 1 < fields.len() {
        Some(MountView { point: unescaped(fields[4]), fstype: fields[d as int + 1] })
    } else {
        None
    }
}

/// The filesystem type of the last line that mounts a skipped type at `path`.
pub open spec fn skipped_at(lines: Seq<Seq<char>>, path: Seq<char>) -> Option<Seq<char>>
    decreases lines.len(),
{
    if lines.len() == 0 {
        None
    } else {
        match mount_of(lines.last()) {
            Some(m) => if m.point == path && skips_fstype(m.fstype) {
                Some(m.fstype)
            } else {
                skipped_at(lines.drop_last(), path)
            },
            None => skipped_at(lines.drop_last(), path),
        }
    }
}

/// The filesystem type recorded for `path` by the text of a mount table, where there is
/// one.
pub open spec fn live_at(mountinfo: Option<Seq<char>>, path: Seq<char>) -> Option<Seq<char>> {
    match mountinfo {
        Some(text) => skipped_at(text::lines(text), path),
        None => None,
    }
}

/// The skip-classified mount points with their filesystem types. Local mounts are
/// absent: the walk descends anything not listed here.
pub struct MountTable {
    skip: StringHashMap<String>,
}

impl MountTable {
    /// The filesystem type recorded for `path`.
    pub closed spec fn fstype_at(&self, path: Seq<char>) -> Option<Seq<char>> {
        if self.skip@.contains_key(path) {
            Some(self.skip@[path]@)
        } else {
            None
        }
    }

    /// The table of a host whose mounts are not known: everything is descended.
    pub fn new() -> (r: Self)
        ensures
            forall|p: Seq<char>| #[trigger] r.fstype_at(p) is None,
    {
        MountTable { skip: StringHashMap::new() }
    }

    /// The live table, from the text of `/proc/self/mountinfo`. Best-effort: where that
    /// cannot be read the table is empty, so the walk descends everything.
    pub fn live(mountinfo: Option<&str>) -> (r: Self)
        ensures
            forall|p: Seq<char>| #[trigger]
                r.fstype_at(p) == live_at(inspect::opt_str(mountinfo), p),
    {
        match mountinfo {
            Some(text) => MountTable::from_mountinfo(text),
            None => MountTable::new(),
        }
    }

    /// Parse a `/proc/self/mountinfo` dump, recording only the network and pseudo
    /// mounts. Unparseable lines are skipped.
    pub fn from_mountinfo(text: &str) -> (r: Self)
        ensures
            forall|p: Seq<char>| #[trigger]
                r.fstype_at(p) == skipped_at(text::lines(text@), p),
    {
        let cs = text::chars_of(text);
        let lines = text::split_lines(cs.as_slice());
        let ghost all = text::slices(lines@);
        let mut skip: StringHashMap<String> = StringHashMap::new();
        let mut i: usize = 0;
        while i < lines.len()
            invariant
                all == text::slices(lines@),
                i <= lines@.len(),
                forall|p: Seq<char>| #[trigger]
                    skip@.contains_key(p) == skipped_at(all.take(i as int), p) is Some,
                forall|p: Seq<char>| #[trigger]
                    skip@.contains_key(p) ==> Some(skip@[p]@) == skipped_at(
                        all.take(i as int),
                        p,
                    ),
            decreases lines@.len() - i,
        {
            proof {
                assert(all.take(i + 1).drop_last() =~= all.take(i as int));
                assert(all.take(i + 1).last() == lines@[i as int]@);
            }
            match mount_in(lines[i]) {
                Some((point, fstype)) => {
                    if is_skip_fstype(&fstype) {
                        skip.insert(point, fstype);
                    }
                },
                None => {},
            }
            i += 1;
        }
        proof {
            assert(all.take(i as int) =~= all);
        }
        MountTable { skip }
    }

    /// The filesystem type of `path` if it is a skip-classified mount point.
    pub fn skip_fstype(&self, path: &str) -> (r: Option<String>)
        ensures
            inspect::opt_text(r) == self.fstype_at(path@),
    {
        match self.skip.get(path) {
            Some(f) => Some(f.clone()),
            None => None,
        }
    }
}

/// The contents of a parsed mount.
pub open spec fn opt_mount(m: Option<(String, String)>) -> Option<MountView> {
    match m {
        Some((p, f)) => Some(MountView { point: p@, fstype: f@ }),
        None => None,
    }
}

/// Parse one `mountinfo` line into `(mount_point, fstype)`, or `None` if malformed.
pub fn parse_mountinfo_line(line: &str) -> (r: Option<(String, String)>)
    ensures
        opt_mount(r) == mount_of(line@),
{
    let cs = text::chars_of(line);
    mount_in(cs.as_slice())
}

/// Parse one `mountinfo` line.
fn mount_in(line: &[char]) -> (r: Option<(String, String)>)
    ensures
        opt_mount(r) == mount_of(line@),
{
    let fields = text::split(line, ' ');
    let ghost all = text::slices(fields@);
    if fields.len() < 5 {
        return None;
    }
    let mut d: usize = 5;
    while d < fields.len() && !(fields[d].len() == 1 && fields[d][0] == '-')
        invariant
            all == text::slices(fields@),
            fields@.len() >= 5,
            d >= 5,
            d <= fields@.len() || d == 5,
            dash_from(all, 5) == dash_from(all, d as nat),
        decreases fields@.len() - d,
    {
        proof {
            assert(all[d as int] == fields@[d as int]@);
        }
        d += 1;
    }
    proof {
        if d < fields@.len() {
            assert(all[d as int] =~= seq!['-']);
        }
    }
    if d >= fields.len() || d + 1 >= fields.len() {
        return None;
    }
    Some((unescape_chars(fields[4]), text::string_of(fields[d + 1])))
}

/// Decode the octal escapes `mountinfo` uses in path fields.
pub fn unescape_mountinfo(s: &str) -> (r: String)
    ensures
        r@ == unescaped(s@),
{
    let cs = text::chars_of(s);
    unescape_chars(cs.as_slice())
}

/// Decode the octal escapes of a path field.
fn unescape_chars(cs: &[char]) -> (out: String)
    ensures
        out@ == unescaped(cs@),
{
    let mut out = String::new();
    let mut rest = cs;
    proof {
        assert(out@ + unescaped(rest@) =~= unescaped(cs@));
    }
    while rest.len() > 0
        invariant
            unescaped(cs@) == out@ + unescaped(rest@),
        decreases rest@.len(),
    {
        let ghost was = out@;
        let ghost r = rest@;
        if rest[0] != '\\' || rest.len() == 1 || (rest[1] != '0' && rest[1] != '1') {
            out.push(rest[0]);
            rest = &rest[1..rest.len()];
            proof {
                assert(was + (seq![r[0]] + unescaped(r.skip(1))) =~= out@ + unescaped(rest@));
            }
        } else if rest.len() < 4 {
            let mut i: usize = 0;
            while i < rest.len()
                invariant
                    i <= rest@.len(),
                    out@ == was + rest@.take(i as int),
                decreases rest@.len() - i,
            {
                out.push(rest[i]);
                i += 1;
                proof {
                    assert(rest@.take(i as int) =~= rest@.take(i - 1).push(rest@[i - 1]));
                }
            }
            proof {
                assert(rest@.take(i as int) =~= rest@);
            }
            return out;
        } else {
            match decode_escape(rest[1], rest[2], rest[3]) {
                Some(c) => {
                    out.push(c);
                    proof {
                        assert(out@ =~= was + seq![c]);
                    }
                },
                None => {
                    out.push(rest[0]);
                    out.push(rest[1]);
                    out.push(rest[2]);
                    out.push(rest[3]);
                    proof {
                        assert(out@ =~= was + r.take(4));
                    }
                },
            }
            rest = &rest[4..rest.len()];
            proof {
                assert(unescaped(cs@) =~= out@ + unescaped(rest@));
            }
        }
    }
    proof {
        assert(out@ + unescaped(rest@) =~= out@);
    }
    out
}

/// The character that an octal escape stands for.
fn decode_escape(a: char, b: char, c: char) -> (r: Option<char>)
    ensures
        r == escaped_char(a, b, c),
{
    if a == '0' && b == '4' && c == '0' {
        Some(' ')
    } else if a == '0' && b == '1' && c == '1' {
        Some('\t')
    } else if a == '0' && b == '1' && c == '2' {
        Some('\n')
    } else if a == '1' && b == '3' && c == '4' {
        Some('\\')
    } else {
        None
    }
}

// ---------------------------------------------------------------------------
// Laws
// ---------------------------------------------------------------------------

/// A mount point without a backslash is taken as it is.
pub proof fn plain_mount_points_stay(s: Seq<char>)
    requires
        forall|i: int| 0 <= i < s.len() ==> #[trigger] s[i] != '\\',
    ensures
        unescaped(s) == s,
    decreases s.len(),
{
    if s.len() > 0 {
        let rest = s.skip(1);
        assert forall|i: int| 0 <= i < rest.len() implies #[trigger] rest[i] != '\\' by {
            assert(rest[i] == s[i + 1]);
        }
        plain_mount_points_stay(rest);
        assert(seq![s[0]] + rest =~= s);
    } else {
        assert(unescaped(s) =~= s);
    }
}

/// Only a mount of a network or pseudo type is ever skipped.
pub proof fn only_foreign_mounts_are_skipped(lines: Seq<Seq<char>>, path: Seq<char>)
    ensures
        skipped_at(lines, path) matches Some(fstype) ==> skips_fstype(fstype),
    decreases lines.len(),
{
    if lines.len() > 0 {
        only_foreign_mounts_are_skipped(lines.drop_last(), path);
    }
}

/// The types that are skipped: these network and pseudo filesystems, and no other. So a
/// `tmpfs` is walked, and so is any type that is not known.
pub proof fn the_skipped_types(fstype: Seq<char>)
    ensures
        skips_fstype(fstype) <==> {
            ||| fstype == "nfs"@
            ||| fstype == "nfs4"@
            ||| fstype == "cifs"@
            ||| fstype == "smb3"@
            ||| fstype == "smbfs"@
            ||| fstype == "ncpfs"@
            ||| fstype == "afs"@
            ||| fstype == "9p"@
            ||| fstype == "ceph"@
            ||| fstype == "glusterfs"@
            ||| fstype == "lustre"@
            ||| fstype == "ocfs2"@
            ||| fstype == "fuse.sshfs"@
            ||| fstype == "sshfs"@
            ||| fstype == "fuse.davfs"@
            ||| fstype == "davfs"@
            ||| fstype == "fuse.glusterfs"@
            ||| fstype == "fuse.cephfs"@
            ||| fstype == "fuse.rclone"@
            ||| fstype == "proc"@
            ||| fstype == "sysfs"@
            ||| fstype == "devtmpfs"@
            ||| fstype == "devpts"@
            ||| fstype == "cgroup"@
            ||| fstype == "cgroup2"@
            ||| fstype == "bpf"@
            ||| fstype == "tracefs"@
            ||| fstype == "debugfs"@
            ||| fstype == "securityfs"@
            ||| fstype == "pstore"@
            ||| fstype == "mqueue"@
            ||| fstype == "hugetlbfs"@
            ||| fstype == "configfs"@
            ||| fstype == "fusectl"@
            ||| fstype == "binfmt_misc"@
            ||| fstype == "autofs"@
            ||| fstype == "rpc_pipefs"@
            ||| fstype == "nsfs"@
            ||| fstype == "efivarfs"@
        },
{
    let n = text::str_views(NETWORK_FSTYPES@);
    assert(n[0] == "nfs"@);
    assert(n[1] == "nfs4"@);
    assert(n[2] == "cifs"@);
    assert(n[3] == "smb3"@);
    assert(n[4] == "smbfs"@);
    assert(n[5] == "ncpfs"@);
    assert(n[6] == "afs"@);
    assert(n[7] == "9p"@);
    assert(n[8] == "ceph"@);
    assert(n[9] == "glusterfs"@);
    assert(n[10] == "lustre"@);
    assert(n[11] == "ocfs2"@);
    assert(n[12] == "fuse.sshfs"@);
    assert(n[13] == "sshfs"@);
    assert(n[14] == "fuse.davfs"@);
    assert(n[15] == "davfs"@);
    assert(n[16] == "fuse.glusterfs"@);
    assert(n[17] == "fuse.cephfs"@);
    assert(n[18] == "fuse.rclone"@);
    let p = text::str_views(PSEUDO_FSTYPES@);
    assert(p[0] == "proc"@);
    assert(p[1] == "sysfs"@);
    assert(p[2] == "devtmpfs"@);
    assert(p[3] == "devpts"@);
    assert(p[4] == "cgroup"@);
    assert(p[5] == "cgroup2"@);
    assert(p[6] == "bpf"@);
    assert(p[7] == "tracefs"@);
    assert(p[8] == "debugfs"@);
    assert(p[9] == "securityfs"@);
    assert(p[10] == "pstore"@);
    assert(p[11] == "mqueue"@);
    assert(p[12] == "hugetlbfs"@);
    assert(p[13] == "configfs"@);
    assert(p[14] == "fusectl"@);
    assert(p[15] == "binfmt_misc"@);
    assert(p[16] == "autofs"@);
    assert(p[17] == "rpc_pipefs"@);
    assert(p[18] == "nsfs"@);
    assert(p[19] == "efivarfs"@);
    assert(n.len() == 19);
    assert(p.len() == 20);
    text::listed_is_contained(n, fstype);
    text::listed_is_contained(p, fstype);
}

/// The escapes are octal: of a space, a tab, a newline and a backslash, and of nothing else.
pub proof fn escapes_are_octal(a: char, b: char, c: char)
    ensures
        match escaped_char(a, b, c) {
            Some(x) => {
                &&& x as int == 64 * (a as int - 48) + 8 * (b as int - 48) + (c as int - 48)
                &&& x as int == 32 || x as int == 9 || x as int == 10 || x as int == 92
            },
            None => 48 <= a as int <= 55 && 48 <= b as int <= 55 && 48 <= c as int <= 55 ==> {
                let n = 64 * (a as int - 48) + 8 * (b as int - 48) + (c as int - 48);
                n != 32 && n != 9 && n != 10 && n != 92
            },
        },
{
}

/// What has no backslash stays, and what follows it is decoded for itself. An escape is
/// decoded in its place; a backslash before anything but `0` or `1` stays.
pub proof fn escapes_are_decoded_in_place(
    plain: Seq<char>,
    a: char,
    b: char,
    c: char,
    rest: Seq<char>,
)
    requires
        forall|i: int| 0 <= i < plain.len() ==> #[trigger] plain[i] != '\\',
    ensures
        unescaped(plain + rest) == plain + unescaped(rest),
        escaped_char(a, b, c) matches Some(x) ==> unescaped(seq!['\\', a, b, c] + rest) == seq![x]
            + unescaped(rest),
        escaped_char(a, b, c) is None && (a == '0' || a == '1') ==> unescaped(
            seq!['\\', a, b, c] + rest,
        ) == seq!['\\', a, b, c] + unescaped(rest),
        a != '0' && a != '1' ==> unescaped(seq!['\\', a] + rest) == seq!['\\'] + unescaped(
            seq![a] + rest,
        ),
    decreases plain.len(),
{
    let four = seq!['\\', a, b, c] + rest;
    assert(four.skip(4) =~= rest);
    assert(four.take(4) =~= seq!['\\', a, b, c]);
    assert(four[0] == '\\' && four[1] == a && four[2] == b && four[3] == c);
    let two = seq!['\\', a] + rest;
    assert(two.skip(1) =~= seq![a] + rest);
    assert(two[0] == '\\' && two[1] == a);
    if plain.len() == 0 {
        assert(plain + rest =~= rest);
        assert(plain + unescaped(rest) =~= unescaped(rest));
    } else {
        let less = plain.skip(1);
        assert forall|i: int| 0 <= i < less.len() implies #[trigger] less[i] != '\\' by {
            assert(less[i] == plain[i + 1]);
        }
        escapes_are_decoded_in_place(less, a, b, c, rest);
        assert((plain + rest).skip(1) =~= less + rest);
        assert((plain + rest)[0] == plain[0]);
        assert(seq![plain[0]] + (less + unescaped(rest)) =~= plain + unescaped(rest));
    }
}

/// The separator is the first field `-` at or after the sixth.
pub proof fn the_first_dash(fields: Seq<Seq<char>>, i: nat)
    ensures
        i <= fields.len() ==> i <= dash_from(fields, i) <= fields.len(),
        i > fields.len() ==> dash_from(fields, i) == fields.len(),
        i <= dash_from(fields, i) < fields.len() ==> fields[dash_from(fields, i) as int] == seq![
            '-',
        ],
        forall|j: int|
            i <= j < dash_from(fields, i) && j < fields.len() ==> #[trigger] fields[j] != seq!['-'],
    decreases fields.len() - i,
{
    if i < fields.len() && fields[i as int] != seq!['-'] {
        the_first_dash(fields, i + 1);
    }
}

/// A line is a mount where a field `-` stands after the fifth field and is followed by
/// another: then the fifth field is the mount point and that one the type.
pub proof fn mounts_by_field(line: Seq<char>, d: int)
    requires
        6 <= d + 1 < text::split_on(line, ' ').len(),
        text::split_on(line, ' ')[d] == seq!['-'],
        forall|j: int| 5 <= j < d ==> #[trigger] text::split_on(line, ' ')[j] != seq!['-'],
    ensures
        mount_of(line) == Some(
            MountView {
                point: unescaped(text::split_on(line, ' ')[4]),
                fstype: text::split_on(line, ' ')[d + 1],
            },
        ),
{
    the_first_dash(text::split_on(line, ' '), 5);
}

/// A line without such a separator is no mount.
pub proof fn lines_without_a_separator_are_no_mounts(line: Seq<char>)
    requires
        forall|j: int|
            5 <= j < text::split_on(line, ' ').len() - 1 ==> #[trigger] text::split_on(
                line,
                ' ',
            )[j] != seq!['-'],
    ensures
        mount_of(line) is None,
{
    the_first_dash(text::split_on(line, ' '), 5);
}

/// The type that is skipped at a path is that of the last line that mounts a skipped type
/// there; nothing is skipped only where no line does.
pub proof fn the_last_skipped_mount_counts(lines: Seq<Seq<char>>, path: Seq<char>)
    ensures
        match skipped_at(lines, path) {
            None => forall|i: int|
                0 <= i < lines.len() ==> !(mount_of(#[trigger] lines[i]) matches Some(m)
                    && m.point == path && skips_fstype(m.fstype)),
            Some(fstype) => exists|i: int|
                {
                    &&& 0 <= i < lines.len()
                    &&& mount_of(#[trigger] lines[i]) == Some(MountView { point: path, fstype })
                    &&& skips_fstype(fstype)
                    &&& forall|j: int|
                        i < j < lines.len() ==> !(mount_of(#[trigger] lines[j]) matches Some(m)
                            && m.point == path && skips_fstype(m.fstype))
                },
        },
    decreases lines.len(),
{
    if lines.len() > 0 {
        let before = lines.drop_last();
        let here = mount_of(lines.last()) matches Some(m) && m.point == path && skips_fstype(
            m.fstype,
        );
        if here {
            assert(mount_of(lines[lines.len() - 1]) is Some);
        } else {
            the_last_skipped_mount_counts(before, path);
            match skipped_at(before, path) {
                None => {
                    assert forall|i: int| 0 <= i < lines.len() implies !(mount_of(
                        #[trigger] lines[i],
                    ) matches Some(m) && m.point == path && skips_fstype(m.fstype)) by {
                        if i < before.len() {
                            assert(before[i] == lines[i]);
                        }
                    }
                },
                Some(fstype) => {
                    let i = choose|i: int|
                        {
                            &&& 0 <= i < before.len()
                            &&& mount_of(#[trigger] before[i]) == Some(
                                MountView { point: path, fstype },
                            )
                            &&& forall|j: int|
                                i < j < before.len() ==> !(mount_of(
                                    #[trigger] before[j],
                                ) matches Some(m) && m.point == path && skips_fstype(m.fstype))
                        };
                    only_foreign_mounts_are_skipped(before, path);
                    assert(lines[i] == before[i]);
                    assert forall|j: int| i < j < lines.len() implies !(mount_of(
                        #[trigger] lines[j],
                    ) matches Some(m) && m.point == path && skips_fstype(m.fstype)) by {
                        if j < before.len() {
                            assert(before[j] == lines[j]);
                        }
                    }
                },
            }
        }
    }
}

/// A host whose mount table cannot be read skips nothing; any other goes by the lines of it.
pub proof fn unknown_mounts_are_descended(t: Seq<char>, path: Seq<char>)
    ensures
        live_at(None, path) is None,
        live_at(Some(t), path) == skipped_at(text::lines(t), path),
{
}

} // verus!
