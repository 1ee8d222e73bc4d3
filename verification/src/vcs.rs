//! The revision that is being served: what was configured, else what the
//! checkout says. Empty texts mean that it cannot be told.

use crate::text::{
    begins, chars_of, copy, first_of, lemma_first_of, nonempty, opt_text, opt_view, same, split,
    split_on, starts_with, string_of, texts, trim, trimmed,
};
use vstd::prelude::*;

verus! {

/// What a checkout says it is serving.
pub struct Revision {
    pub commit: String,
    pub branch: String,
}

/// A revision as plain contents.
pub struct RevisionView {
    pub commit: Seq<char>,
    pub branch: Seq<char>,
}

impl View for Revision {
    type V = RevisionView;

    open spec fn view(&self) -> RevisionView {
        RevisionView { commit: self.commit@, branch: self.branch@ }
    }
}

/// The longest commit that is kept, in characters.
pub const MAX_COMMIT_CHARS: usize = 64;

/// The first `MAX_COMMIT_CHARS` characters.
pub open spec fn clipped(value: Seq<char>) -> Seq<char> {
    if value.len() <= MAX_COMMIT_CHARS {
        value
    } else {
        value.take(MAX_COMMIT_CHARS as int)
    }
}

/// The first `MAX_COMMIT_CHARS` characters.
pub fn clip(value: &str) -> (r: String)
    ensures
        r@ == clipped(value@),
{
    let v = chars_of(value);
    if v.len() <= MAX_COMMIT_CHARS {
        copy(value)
    } else {
        let r = string_of(&v, 0, MAX_COMMIT_CHARS);
        assert(r@ =~= value@.take(MAX_COMMIT_CHARS as int));
        r
    }
}

/// The branch reference in a checkout's HEAD, or none when it is a bare commit.
pub open spec fn reference_in(head: Seq<char>) -> Option<Seq<char>> {
    let h = trimmed(head);
    if begins(h, "ref: "@) {
        Some(h.skip(5))
    } else {
        None
    }
}

/// The branch reference in a checkout's HEAD.
pub fn head_reference(head: &str) -> (r: Option<String>)
    ensures
        opt_text(r) == reference_in(head@),
{
    let h = trim(head);
    proof {
        reveal_strlit("ref: ");
        assert("ref: "@.len() == 5);
    }
    if !starts_with(h.as_str(), "ref: ") {
        return None;
    }
    let v = chars_of(h.as_str());
    let r = string_of(&v, 5, v.len());
    assert(r@ =~= h@.skip(5));
    Some(r)
}

/// The last of a path's segments.
pub open spec fn last_segment(path: Seq<char>) -> Seq<char> {
    split(path, '/').last()
}

/// The last of a path's segments.
pub fn branch_of(reference: &str) -> (r: String)
    ensures
        r@ == last_segment(reference@),
{
    let pieces = split_on(reference, '/');
    proof {
        crate::text::lemma_split_some(reference@, '/');
        assert(texts(pieces@).len() == pieces@.len());
    }
    let r = pieces[pieces.len() - 1].clone();
    assert(texts(pieces@)[pieces@.len() - 1] == r@);
    r
}

/// The commit that a line of `packed-refs` gives a reference.
pub open spec fn packed_line(line: Seq<char>, reference: Seq<char>) -> Option<Seq<char>> {
    let k = first_of(line, ' ') as int;
    if begins(line, "#"@) || begins(line, "^"@) || k >= line.len() || trimmed(line.skip(k + 1))
        != reference {
        None
    } else {
        Some(clipped(trimmed(line.take(k))))
    }
}

/// The commit that the first matching line gives a reference.
pub open spec fn packed_lines(lines: Seq<Seq<char>>, reference: Seq<char>) -> Seq<char>
    decreases lines.len(),
{
    if lines.len() == 0 {
        Seq::empty()
    } else {
        match packed_line(lines[0], reference) {
            Some(commit) => commit,
            None => packed_lines(lines.drop_first(), reference),
        }
    }
}

fn read_packed_line(line: &str, reference: &str) -> (r: Option<String>)
    ensures
        opt_text(r) == packed_line(line@, reference@),
{
    if starts_with(line, "#") || starts_with(line, "^") {
        return None;
    }
    let v = chars_of(line);
    let mut i: usize = 0;
    while i < v.len() && v[i] != ' '
        invariant
            i <= v@.len(),
            forall|j: int| 0 <= j < i ==> v@[j] != ' ',
        decreases v@.len() - i,
    {
        i = i + 1;
    }
    proof {
        lemma_first_of(v@, ' ', i as int);
    }
    if i == v.len() {
        return None;
    }
    let name = string_of(&v, i + 1, v.len());
    assert(name@ =~= line@.skip(i + 1));
    if !same(trim(name.as_str()).as_str(), reference) {
        return None;
    }
    let sha = string_of(&v, 0, i);
    assert(sha@ =~= line@.take(i as int));
    Some(clip(trim(sha.as_str()).as_str()))
}

/// The commit that a `packed-refs` file gives a reference: empty when it has
/// none.
pub fn packed_ref(packed: &str, reference: &str) -> (r: String)
    ensures
        r@ == packed_lines(split(packed@, '\n'), reference@),
{
    let lines = split_on(packed, '\n');
    let ghost all = texts(lines@);
    let mut i: usize = 0;
    assert(all.skip(0) =~= all);
    while i < lines.len()
        invariant
            i <= lines@.len(),
            all == texts(lines@),
            all == split(packed@, '\n'),
            packed_lines(all.skip(i as int), reference@) == packed_lines(all, reference@),
        decreases lines@.len() - i,
    {
        assert(all.skip(i as int)[0] == all[i as int]);
        assert(all.skip(i as int).drop_first() =~= all.skip(i + 1));
        if let Some(commit) = read_packed_line(lines[i].as_str(), reference) {
            return commit;
        }
        i = i + 1;
    }
    String::new()
}

/// What a checkout shows: the text of HEAD, of the reference's own file, and of
/// `packed-refs`, each where it could be read.
pub struct Checkout<'a> {
    pub head: Option<&'a str>,
    pub loose: Option<&'a str>,
    pub packed: Option<&'a str>,
}

/// The revision of a checkout. A reference's own file wins over `packed-refs`.
pub open spec fn checked_out(c: Checkout<'_>) -> RevisionView {
    match c.head {
        None => RevisionView { commit: Seq::empty(), branch: Seq::empty() },
        Some(head) => match reference_in(head@) {
            None => RevisionView { commit: clipped(trimmed(head@)), branch: Seq::empty() },
            Some(reference) => RevisionView {
                commit: match c.loose {
                    Some(sha) => clipped(trimmed(sha@)),
                    None => match c.packed {
                        Some(packed) => packed_lines(split(packed@, '\n'), reference),
                        None => Seq::empty(),
                    },
                },
                branch: last_segment(reference),
            },
        },
    }
}

/// The revision: a configured commit or branch wins over anything on disk, and
/// only what is not configured is read off the checkout.
pub open spec fn resolved(
    commit: Option<Seq<char>>,
    branch: Option<Seq<char>>,
    checkout: Checkout<'_>,
) -> RevisionView {
    RevisionView {
        commit: match nonempty(commit) {
            Some(c) => clipped(c),
            None => checked_out(checkout).commit,
        },
        branch: match nonempty(branch) {
            Some(b) => b,
            None => checked_out(checkout).branch,
        },
    }
}

fn read_checkout(checkout: &Checkout<'_>) -> (r: Revision)
    ensures
        r@ == checked_out(*checkout),
{
    let head = match checkout.head {
        Some(h) => h,
        None => {
            return Revision { commit: String::new(), branch: String::new() };
        },
    };
    let reference = match head_reference(head) {
        Some(r) => r,
        None => {
            let h = trim(head);
            return Revision { commit: clip(h.as_str()), branch: String::new() };
        },
    };
    let branch = branch_of(reference.as_str());
    let commit = match checkout.loose {
        Some(sha) => clip(trim(sha).as_str()),
        None => match checkout.packed {
            Some(packed) => packed_ref(packed, reference.as_str()),
            None => String::new(),
        },
    };
    Revision { commit, branch }
}

/// Tell the revision.
pub fn resolve(commit: Option<&str>, branch: Option<&str>, checkout: &Checkout<'_>) -> (r: Revision)
    ensures
        r@ == resolved(opt_view(commit), opt_view(branch), *checkout),
{
    let mut told = read_checkout(checkout);
    if let Some(c) = commit {
        if !c.is_empty() {
            told.commit = clip(c);
        }
    }
    if let Some(b) = branch {
        if !b.is_empty() {
            told.branch = copy(b);
        }
    }
    told
}

/// No revision has a commit longer than `MAX_COMMIT_CHARS`, however it was told.
pub proof fn law_commits_are_bounded(
    commit: Option<Seq<char>>,
    branch: Option<Seq<char>>,
    checkout: Checkout<'_>,
)
    ensures
        resolved(commit, branch, checkout).commit.len() <= MAX_COMMIT_CHARS,
{
    if let (Some(head), Some(packed)) = (checkout.head, checkout.packed) {
        if let Some(reference) = reference_in(head@) {
            lemma_packed_bounded(split(packed@, '\n'), reference);
        }
    }
}

proof fn lemma_packed_bounded(lines: Seq<Seq<char>>, reference: Seq<char>)
    ensures
        packed_lines(lines, reference).len() <= MAX_COMMIT_CHARS,
    decreases lines.len(),
{
    if lines.len() > 0 {
        lemma_packed_bounded(lines.drop_first(), reference);
    }
}

/// The revision, told once per process: the first answer stays.
pub fn revision(told: &mut Option<Revision>, resolved: Revision) -> (r: Revision)
    ensures
        r@ == match *old(told) {
            Some(first) => first@,
            None => resolved@,
        },
        match *final(told) {
            Some(kept) => kept@ == r@,
            None => false,
        },
        *old(told) is Some ==> *final(told) == *old(told),
{
    if told.is_none() {
        *told = Some(resolved);
    }
    match told {
        Some(first) => Revision { commit: first.commit.clone(), branch: first.branch.clone() },
        None => Revision { commit: String::new(), branch: String::new() },
    }
}

/// How far up the search for a checkout goes.
pub const MAX_LEVELS: usize = 8;

/// What stands at `.git` in one directory.
pub enum GitEntry {
    Missing,
    Directory,
    /// A file, with its text where it could be read.
    File(Option<String>),
}

/// Where a `.git` file points.
pub open spec fn pointer_in(contents: Seq<char>) -> Option<Seq<char>> {
    let c = trimmed(contents);
    if begins(c, "gitdir: "@) {
        Some(c.skip(8))
    } else {
        None
    }
}

/// Where a `.git` file points.
pub fn gitdir_pointer(contents: &str) -> (r: Option<String>)
    ensures
        opt_text(r) == pointer_in(contents@),
{
    let c = trim(contents);
    proof {
        reveal_strlit("gitdir: ");
        assert("gitdir: "@.len() == 8);
    }
    if !starts_with(c.as_str(), "gitdir: ") {
        return None;
    }
    let v = chars_of(c.as_str());
    let r = string_of(&v, 8, v.len());
    assert(r@ =~= c@.skip(8));
    Some(r)
}

/// A checkout's administrative directory: `.git` itself at a level, or where a
/// `.git` file at that level points.
pub struct GitDir {
    pub level: usize,
    pub pointer: Option<String>,
}

/// Whether a level settles the search, and with what.
pub open spec fn settles(e: GitEntry) -> Option<Option<Seq<char>>> {
    match e {
        GitEntry::Missing => None,
        GitEntry::Directory => Some(None),
        GitEntry::File(Some(text)) => match pointer_in(text@) {
            Some(p) => Some(Some(p)),
            None => None,
        },
        GitEntry::File(None) => None,
    }
}

/// Find the checkout among a directory and its parents, nearest first: the first
/// of at most `MAX_LEVELS` levels that settles it.
pub fn find_git_dir(levels: &Vec<GitEntry>) -> (r: Option<GitDir>)
    ensures
        match r {
            Some(g) => {
                &&& g.level < levels@.len() && g.level < MAX_LEVELS
                &&& settles(levels@[g.level as int]) == Some(opt_text(g.pointer))
                &&& forall|j: int| 0 <= j < g.level ==> settles(#[trigger] levels@[j]) is None
            },
            None => forall|j: int|
                0 <= j < levels@.len() && j < MAX_LEVELS ==> settles(
                    #[trigger] levels@[j],
                ) is None,
        },
{
    let mut i: usize = 0;
    while i < levels.len() && i < MAX_LEVELS
        invariant
            i <= levels@.len(),
            i <= MAX_LEVELS,
            forall|j: int| 0 <= j < i ==> settles(#[trigger] levels@[j]) is None,
        decreases levels@.len() - i,
    {
        match &levels[i] {
            GitEntry::Directory => {
                return Some(GitDir { level: i, pointer: None });
            },
            GitEntry::File(Some(text)) => {
                if let Some(p) = gitdir_pointer(text.as_str()) {
                    return Some(GitDir { level: i, pointer: Some(p) });
                }
            },
            _ => {},
        }
        i = i + 1;
    }
    None
}

/// A commit is kept whole up to 64 characters, and cut there.
pub proof fn law_commits_are_cut_at_64(value: &str, r: String)
    requires
        call_ensures(clip, (value,), r),
    ensures
        value@.len() <= 64 ==> r@ == value@,
        value@.len() > 64 ==> r@ == value@.take(64),
{
}

/// A HEAD that names a reference says which one, without the white space around
/// it; any other names none. The branch is the last part of the reference.
pub proof fn law_a_head_names_its_reference(
    head: &str,
    cut: String,
    r: Option<String>,
    folder: Seq<char>,
    leaf: Seq<char>,
    reference: &str,
    branch: String,
)
    requires
        call_ensures(head_reference, (head,), r),
        call_ensures(trim, (head,), cut),
        call_ensures(branch_of, (reference,), branch),
        !leaf.contains('/'),
    ensures
        r is Some <==> begins(cut@, "ref: "@),
        r matches Some(name) ==> cut@ == "ref: "@ + name@,
        reference@ == folder.push('/') + leaf ==> branch@ == leaf,
        reference@ == leaf ==> branch@ == leaf,
{
    reveal_strlit("ref: ");
    if r is Some {
        assert(cut@.subrange(0, 5) == "ref: "@);
        assert(cut@ =~= "ref: "@ + r->0@);
    }
    assert forall|i: int| 0 <= i < leaf.len() implies #[trigger] leaf[i] != '/' by {
        assert(leaf.contains(leaf[i]));
    }
    crate::text::lemma_split_append(folder, '/', leaf);
    crate::text::lemma_split_whole(leaf, '/');
}

/// A line of `packed-refs`, `commit reference`, gives that reference its commit: the
/// first such line does, whatever stands after it. Comments and peeled lines give
/// nothing.
pub proof fn law_packed_references(
    packed: &str,
    reference: &str,
    r: String,
    commit: &str,
    kept: String,
    line: Seq<char>,
    rest: &str,
    later: String,
)
    requires
        call_ensures(packed_ref, (packed, reference), r),
        call_ensures(packed_ref, (rest, reference), later),
        call_ensures(clip, (commit,), kept),
        commit@.len() > 0 && reference@.len() > 0,
        forall|i: int|
            0 <= i < commit@.len() ==> !crate::text::is_white(#[trigger] commit@[i]) && commit@[i]
                != '#' && commit@[i] != '^',
        forall|i: int| 0 <= i < reference@.len() ==> !crate::text::is_white(#[trigger] reference@[i]),
        forall|i: int| 0 <= i < line.len() ==> #[trigger] line[i] != '\n',
        packed@ == line.push('\n') + rest@,
    ensures
        line == commit@.push(' ') + reference@ ==> r@ == kept@,
        line == "#"@ + commit@ || line == "^"@ + commit@ ==> r@ == later@,
{
    reveal_strlit("#");
    reveal_strlit("^");
    lemma_split_first(line, rest@, '\n');
    let pieces = split(packed@, '\n');
    assert(pieces[0] == line);
    assert(pieces.drop_first() =~= split(rest@, '\n'));
    let k = commit@.len() as int;
    if line == commit@.push(' ') + reference@ {
        assert(line[0] == commit@[0]);
        assert(!begins(line, "#"@)) by {
            if begins(line, "#"@) {
                assert(line.subrange(0, 1)[0] == "#"@[0]);
            }
        }
        assert(!begins(line, "^"@)) by {
            if begins(line, "^"@) {
                assert(line.subrange(0, 1)[0] == "^"@[0]);
            }
        }
        assert forall|j: int| 0 <= j < k implies line[j] != ' ' by {
            assert(line[j] == commit@[j]);
        }
        assert(line[k] == ' ');
        lemma_first_of(line, ' ', k);
        assert(line.skip(k + 1) =~= reference@);
        assert(line.take(k) =~= commit@);
        assert(trimmed(reference@) == reference@);
        assert(trimmed(commit@) == commit@);
    }
    if line == "#"@ + commit@ {
        assert(line.subrange(0, 1) =~= "#"@);
    }
    if line == "^"@ + commit@ {
        assert(line.subrange(0, 1) =~= "^"@);
    }
}

proof fn lemma_split_first(line: Seq<char>, rest: Seq<char>, c: char)
    requires
        forall|i: int| 0 <= i < line.len() ==> #[trigger] line[i] != c,
    ensures
        split(line.push(c) + rest, c) == seq![line] + split(rest, c),
    decreases line.len(),
{
    let all = line.push(c) + rest;
    if line.len() == 0 {
        assert(all.drop_first() =~= rest);
        assert(line =~= Seq::<char>::empty());
    } else {
        let t = line.drop_first();
        assert(line[0] != c);
        assert forall|i: int| 0 <= i < t.len() implies #[trigger] t[i] != c by {
            assert(t[i] == line[i + 1]);
        }
        lemma_split_first(t, rest, c);
        assert(all.drop_first() =~= t.push(c) + rest);
        assert(seq![line[0]] + t =~= line);
        let inner = seq![t] + split(rest, c);
        assert(inner[0] == t);
        assert(inner.update(0, line) =~= seq![line] + split(rest, c));
    }
}

/// The revision: what is configured stands, field by field, the commit cut; what is
/// not is read off the checkout. A detached HEAD is its own commit and has no
/// branch; else the branch is that of HEAD's reference, and the commit is that of
/// the reference's own file, or else of `packed-refs`. Without a HEAD nothing is
/// told.
pub proof fn law_the_revision_is_what_is_configured_or_checked_out(
    commit: Option<&str>,
    branch: Option<&str>,
    checkout: &Checkout<'_>,
    r: Revision,
    commit_text: &str,
    clipped_commit: String,
    head: &str,
    cut_head: String,
    cut_head_text: &str,
    clipped_head: String,
    reference: Option<String>,
    reference_text: &str,
    leaf: String,
    loose: &str,
    cut_loose: String,
    cut_loose_text: &str,
    clipped_loose: String,
    packed: &str,
    packed_commit: String,
)
    requires
        call_ensures(resolve, (commit, branch, checkout), r),
        commit matches Some(c) ==> commit_text@ == c@,
        call_ensures(clip, (commit_text,), clipped_commit),
        checkout.head matches Some(h) ==> head@ == h@,
        call_ensures(trim, (head,), cut_head),
        cut_head_text@ == cut_head@,
        call_ensures(clip, (cut_head_text,), clipped_head),
        call_ensures(head_reference, (head,), reference),
        reference matches Some(n) ==> reference_text@ == n@,
        call_ensures(branch_of, (reference_text,), leaf),
        checkout.loose matches Some(l) ==> loose@ == l@,
        call_ensures(trim, (loose,), cut_loose),
        cut_loose_text@ == cut_loose@,
        call_ensures(clip, (cut_loose_text,), clipped_loose),
        checkout.packed matches Some(p) ==> packed@ == p@,
        call_ensures(packed_ref, (packed, reference_text), packed_commit),
    ensures
        ({
            let set_commit = commit is Some && commit->0@.len() > 0;
            let set_branch = branch is Some && branch->0@.len() > 0;
            let detached = checkout.head is Some && reference is None;
            let on_branch = checkout.head is Some && reference is Some;
            &&& set_commit ==> r.commit@ == clipped_commit@
            &&& set_branch ==> r.branch@ == branch->0@
            &&& !set_commit && checkout.head is None ==> r.commit@.len() == 0
            &&& !set_branch && checkout.head is None ==> r.branch@.len() == 0
            &&& !set_commit && detached ==> r.commit@ == clipped_head@
            &&& !set_branch && detached ==> r.branch@.len() == 0
            &&& !set_branch && on_branch ==> r.branch@ == leaf@
            &&& !set_commit && on_branch && checkout.loose is Some ==> r.commit@ == clipped_loose@
            &&& !set_commit && on_branch && checkout.loose is None && checkout.packed is Some
                ==> r.commit@ == packed_commit@
            &&& !set_commit && on_branch && checkout.loose is None && checkout.packed is None
                ==> r.commit@.len() == 0
        }),
{
}

/// The first revision told stays.
pub proof fn law_the_first_revision_stays(
    told: &mut Option<Revision>,
    first: Revision,
    r: Revision,
    again: &mut Option<Revision>,
    second: Revision,
    later: Revision,
)
    requires
        call_ensures(revision, (told, first), r),
        *old(told) is None,
        *old(again) == *final(told),
        call_ensures(revision, (again, second), later),
    ensures
        r.commit@ == first.commit@ && r.branch@ == first.branch@,
        later.commit@ == first.commit@ && later.branch@ == first.branch@,
{
}

/// Where the checkout is: the nearest of eight levels that holds a `.git`
/// directory, or a file that points to one; the pointer is what follows `gitdir: `.
pub proof fn law_the_nearest_checkout_wins(
    levels: &Vec<GitEntry>,
    r: Option<GitDir>,
    i: int,
    contents: &str,
    cut: String,
    pointer: Option<String>,
)
    requires
        call_ensures(find_git_dir, (levels,), r),
        call_ensures(gitdir_pointer, (contents,), pointer),
        call_ensures(trim, (contents,), cut),
        0 <= i < levels@.len(),
        i < 8,
    ensures
        pointer is Some <==> begins(cut@, "gitdir: "@),
        pointer matches Some(path) ==> cut@ == "gitdir: "@ + path@,
        levels@[i] is Directory ==> r is Some && r->0.level <= i,
        levels@[i] is Directory && (forall|j: int| 0 <= j < i ==> #[trigger] levels@[j] is Missing)
            ==> r->0.level == i && r->0.pointer is None,
        levels@[i] matches GitEntry::File(Some(text)) ==> text@ == contents@ && pointer is Some
            && (forall|j: int| 0 <= j < i ==> #[trigger] levels@[j] is Missing) ==> r is Some
            && r->0.level == i && opt_text(r->0.pointer) == opt_text(pointer),
        (forall|j: int| 0 <= j < levels@.len() ==> #[trigger] levels@[j] is Missing) ==> r is None,
{
    reveal_strlit("gitdir: ");
    if pointer is Some {
        assert(cut@.subrange(0, 8) == "gitdir: "@);
        assert(cut@ =~= "gitdir: "@ + pointer->0@);
    }
    assert(settles(levels@[i]) is Some || settles(levels@[i]) is None);
    if let Some(g) = r {
        assert(settles(levels@[g.level as int]) is Some);
        if g.level < i {
            assert(!(levels@[g.level as int] is Missing));
        }
    }
}

} // verus!
