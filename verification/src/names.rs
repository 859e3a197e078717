use vstd::prelude::*;
use vstd::string::*;

verus! {

/// The mark that tells password entries from folders: `.ps`.
pub open spec fn entry_mark() -> Seq<char> {
    seq!['.', 'p', 's']
}

/// `n` occurs in `h` starting at index `i`.
pub open spec fn matches_at(h: Seq<char>, n: Seq<char>, i: int) -> bool {
    &&& 0 <= i
    &&& i + n.len() <= h.len()
    &&& h.subrange(i, i + n.len()) == n
}

/// The first index, from `i` on, at which `n` occurs in `h`.
pub open spec fn first_match_from(h: Seq<char>, n: Seq<char>, i: int) -> Option<int>
    decreases h.len() + 1 - i,
{
    if i + n.len() > h.len() {
        None
    } else if matches_at(h, n, i) {
        Some(i)
    } else {
        first_match_from(h, n, i + 1)
    }
}

/// `n` occurs somewhere in `h`.
pub open spec fn spec_contains(h: Seq<char>, n: Seq<char>) -> bool {
    first_match_from(h, n, 0) is Some
}

/// A name that holds `.ps` names a password entry; any other a folder.
pub open spec fn spec_is_entry_name(name: Seq<char>) -> bool {
    spec_contains(name, entry_mark())
}

/// The title an entry gets from the text typed in its title field.
pub open spec fn spec_entry_title(text: Seq<char>) -> Seq<char> {
    text + entry_mark()
}

/// The text shown in the title field for an entry title: everything before
/// the first `.ps`, or the whole title when it holds none.
pub open spec fn spec_display_title(title: Seq<char>) -> Seq<char> {
    match first_match_from(title, entry_mark(), 0) {
        Some(k) => title.take(k),
        None => title,
    }
}

/// The path of `name` inside the folder at path `dir`.
pub open spec fn join_path(dir: Seq<char>, name: Seq<char>) -> Seq<char> {
    dir + seq!['/'] + name
}

/// Index of the last `/` in `p`, or -1.
pub open spec fn last_slash(p: Seq<char>) -> int
    decreases p.len(),
{
    if p.len() == 0 {
        -1
    } else if p.last() == '/' {
        p.len() - 1
    } else {
        last_slash(p.drop_last())
    }
}

/// The path with its last component removed: everything before the last
/// `/`, or the empty path when there is none.
pub open spec fn parent_path(p: Seq<char>) -> Seq<char> {
    if last_slash(p) >= 0 {
        p.take(last_slash(p))
    } else {
        Seq::empty()
    }
}

/// The path with its last `n` components removed.
pub open spec fn strip_path(p: Seq<char>, n: nat) -> Seq<char>
    decreases n,
{
    if n == 0 {
        p
    } else {
        strip_path(parent_path(p), (n - 1) as nat)
    }
}

/// `p` is the folder path `dir` itself or a path below it.
pub open spec fn is_under(p: Seq<char>, dir: Seq<char>) -> bool {
    p == dir || (p.len() > dir.len() && p.take(dir.len() + 1int) == dir + seq!['/'])
}

/// When `first_match_from` finds an index, `n` occurs there and nowhere
/// between `i` and it; when it finds none, `n` occurs nowhere from `i` on.
pub proof fn lemma_first_match(h: Seq<char>, n: Seq<char>, i: int)
    requires
        0 <= i,
    ensures
        first_match_from(h, n, i) matches Some(k) ==> i <= k && matches_at(h, n, k)
            && forall|j: int| i <= j < k ==> !#[trigger] matches_at(h, n, j),
        first_match_from(h, n, i) is None ==> forall|j: int| i <= j ==> !#[trigger] matches_at(h, n, j),
    decreases h.len() + 1 - i,
{
    if i + n.len() > h.len() {
    } else if matches_at(h, n, i) {
    } else {
        lemma_first_match(h, n, i + 1);
    }
}

/// Whether `n` occurs in `h` at index `i`.
fn matches_here(h: &str, n: &str, i: usize, hl: usize, nl: usize) -> (ok: bool)
    requires
        hl == h@.len(),
        nl == n@.len(),
        i + nl <= hl,
    ensures
        ok == matches_at(h@, n@, i as int),
{
    let mut j: usize = 0;
    while j < nl
        invariant
            hl == h@.len(),
            nl == n@.len(),
            i + nl <= hl,
            j <= nl,
            forall|k: int| 0 <= k < j ==> h@[i + k] == n@[k],
        decreases nl - j,
    {
        if h.get_char(i + j) != n.get_char(j) {
            assert(h@.subrange(i as int, i + nl)[j as int] != n@[j as int]);
            return false;
        }
        j = j + 1;
    }
    assert(h@.subrange(i as int, i + nl) =~= n@);
    true
}

/// The first index at which `n` occurs in `h`.
pub fn find_str(h: &str, n: &str) -> (r: Option<usize>)
    ensures
        r matches Some(k) ==> first_match_from(h@, n@, 0) == Some(k as int),
        r is None ==> first_match_from(h@, n@, 0) is None,
{
    let hl: usize = h.unicode_len();
    let nl: usize = n.unicode_len();
    if nl > hl {
        return None;
    }
    if nl == 0 {
        assert(h@.subrange(0, 0) =~= n@);
        return Some(0);
    }
    let mut i: usize = 0;
    while i <= hl - nl
        invariant
            hl == h@.len(),
            nl == n@.len(),
            1 <= nl <= hl,
            i <= hl - nl + 1,
            first_match_from(h@, n@, 0) == first_match_from(h@, n@, i as int),
        decreases hl + 1 - i,
    {
        if matches_here(h, n, i, hl, nl) {
            return Some(i);
        }
        i = i + 1;
    }
    None
}

/// Whether `n` occurs in `h` (`str::contains`).
pub fn contains_str(h: &str, n: &str) -> (r: bool)
    ensures
        r == spec_contains(h@, n@),
{
    find_str(h, n).is_some()
}

fn entry_mark_str() -> (m: &'static str)
    ensures
        m@ == entry_mark(),
{
    let m: &'static str = ".ps";
    proof {
        reveal_strlit(".ps");
    }
    assert(m@ =~= entry_mark());
    m
}

/// Whether a name names a password entry, that is, holds `.ps`.
pub fn is_entry_name(name: &str) -> (r: bool)
    ensures
        r == spec_is_entry_name(name@),
{
    contains_str(name, entry_mark_str())
}

/// The title of an entry whose title field holds `text`: `text` + `.ps`.
pub fn entry_title(text: &str) -> (t: String)
    ensures
        t@ == spec_entry_title(text@),
{
    String::from_str(text).concat(entry_mark_str())
}

/// The text of the title field for an entry title: what comes before the
/// first `.ps`.
pub fn display_title(title: &str) -> (t: String)
    ensures
        t@ == spec_display_title(title@),
{
    match find_str(title, entry_mark_str()) {
        Some(k) => {
            proof {
                lemma_first_match(title@, entry_mark(), 0);
                assert(title@.subrange(0, k as int) =~= title@.take(k as int));
            }
            let head: &str = title.substring_char(0, k);
            let t: String = String::from_str(head);
            assert(head@ == title@.subrange(0, k as int));
            assert(t@ == head@);
            t
        },
        None => String::from_str(title),
    }
}

/// The path of `name` inside the folder at path `dir`: `dir/name`.
pub fn child_path(dir: &str, name: &str) -> (p: String)
    ensures
        p@ == join_path(dir@, name@),
{
    let slash: &'static str = "/";
    proof {
        reveal_strlit("/");
    }
    assert(slash@ =~= seq!['/']);
    String::from_str(dir).concat(slash).concat(name)
}

/// The index of the last `/` in the path, if any.
fn find_last_slash(p: &str) -> (r: Option<usize>)
    ensures
        r matches Some(k) ==> k as int == last_slash(p@),
        r is None ==> last_slash(p@) < 0,
{
    let len: usize = p.unicode_len();
    let mut i: usize = len;
    assert(p@.take(len as int) =~= p@);
    while i > 0
        invariant
            len == p@.len(),
            i <= len,
            last_slash(p@) == last_slash(p@.take(i as int)),
        decreases i,
    {
        let ghost t = p@.take(i as int);
        assert(t.drop_last() =~= p@.take(i - 1));
        if p.get_char(i - 1) == '/' {
            return Some(i - 1);
        }
        i = i - 1;
    }
    assert(p@.take(0) =~= Seq::<char>::empty());
    None
}

/// The path with its last component removed.
pub fn parent_of(p: &str) -> (q: String)
    ensures
        q@ == parent_path(p@),
{
    match find_last_slash(p) {
        Some(k) => {
            proof {
                lemma_last_slash_bound(p@);
                assert(p@.subrange(0, k as int) =~= p@.take(k as int));
            }
            String::from_str(p.substring_char(0, k))
        },
        None => {
            assert(Seq::<char>::empty() =~= parent_path(p@));
            String::new()
        },
    }
}

/// The last `/` lies inside the path.
pub proof fn lemma_last_slash_bound(p: Seq<char>)
    ensures
        -1 <= last_slash(p) < p.len(),
        last_slash(p) >= 0 ==> p[last_slash(p)] == '/',
    decreases p.len(),
{
    if p.len() > 0 && p.last() != '/' {
        lemma_last_slash_bound(p.drop_last());
    }
}

/// The path with its last `n` components removed (`getpathwithoutps`).
pub fn strip_components(path: &str, n: usize) -> (q: String)
    ensures
        q@ == strip_path(path@, n as nat),
{
    let mut cur: String = String::from_str(path);
    let mut k: usize = 0;
    while k < n
        invariant
            k <= n,
            strip_path(path@, n as nat) == strip_path(cur@, (n - k) as nat),
        decreases n - k,
    {
        let next: String = parent_of(cur.as_str());
        assert(strip_path(cur@, (n - k) as nat) == strip_path(parent_path(cur@), (n - k - 1) as nat));
        cur = next;
        k = k + 1;
    }
    cur
}

/// Whether the path `p` is the folder `dir` or lies below it.
pub fn path_is_under(p: &str, dir: &str) -> (r: bool)
    ensures
        r == is_under(p@, dir@),
{
    let pl: usize = p.unicode_len();
    let dl: usize = dir.unicode_len();
    if pl < dl {
        assert(!is_under(p@, dir@));
        return false;
    }
    let mut i: usize = 0;
    while i < dl
        invariant
            pl == p@.len(),
            dl == dir@.len(),
            dl <= pl,
            i <= dl,
            forall|k: int| 0 <= k < i ==> p@[k] == dir@[k],
        decreases dl - i,
    {
        if p.get_char(i) != dir.get_char(i) {
            assert(p@ != dir@);
            assert(p@.len() > dir@.len() ==> p@.take(dir@.len() + 1int)[i as int] != (dir@ + seq!['/'])[i as int]);
            return false;
        }
        i = i + 1;
    }
    if pl == dl {
        assert(p@ =~= dir@);
        return true;
    }
    let r: bool = p.get_char(dl) == '/';
    proof {
        if r {
            assert(p@.take(dl + 1) =~= dir@ + seq!['/']);
        } else {
            assert(p@.take(dl + 1)[dl as int] != (dir@ + seq!['/'])[dl as int]);
        }
    }
    r
}

/// Every entry title holds the entry mark, so it names an entry.
pub proof fn law_entry_title_is_entry(text: Seq<char>)
    ensures
        spec_is_entry_name(spec_entry_title(text)),
{
    let t = spec_entry_title(text);
    assert(t.subrange(text.len() as int, text.len() + 3int) =~= entry_mark());
    assert(matches_at(t, entry_mark(), text.len() as int));
    lemma_first_match(t, entry_mark(), 0);
}

/// No occurrence of the entry mark in `text + .ps` starts inside `text`,
/// when `text` itself holds none.
proof fn lemma_no_early_mark(text: Seq<char>, j: int)
    requires
        !spec_contains(text, entry_mark()),
        0 <= j < text.len(),
    ensures
        !matches_at(spec_entry_title(text), entry_mark(), j),
{
    let t = spec_entry_title(text);
    let m = entry_mark();
    let l = text.len() as int;
    lemma_first_match(text, m, 0);
    if matches_at(t, m, j) {
        let w = t.subrange(j, j + 3);
        assert(w == m);
        if j + 3 <= l {
            assert(text.subrange(j, j + 3) =~= w);
            assert(matches_at(text, m, j));
        } else if j == l - 1 {
            assert(w[1] == t[l]);
            assert(t[l] == m[0]);
        } else {
            assert(w[2] == t[l]);
            assert(t[l] == m[0]);
        }
    }
}

/// The title field shows back exactly the text an entry title was made of,
/// when that text holds no `.ps` of its own.
pub proof fn law_display_entry_title(text: Seq<char>)
    requires
        !spec_contains(text, entry_mark()),
    ensures
        spec_display_title(spec_entry_title(text)) == text,
{
    let t = spec_entry_title(text);
    let m = entry_mark();
    let l = text.len() as int;
    assert(t.subrange(l, l + 3) =~= m);
    assert(matches_at(t, m, l));
    assert forall|j: int| 0 <= j < l implies #[trigger] first_match_from(t, m, j) == first_match_from(t, m, j + 1) by {
        lemma_no_early_mark(text, j);
    }
    lemma_first_match_skip(t, m, 0, l);
    assert(first_match_from(t, m, 0) == Some(l));
    assert(t.take(l) =~= text);
}

/// When no occurrence starts between `i` and `k`, the search from `i` ends
/// where the search from `k` does.
proof fn lemma_first_match_skip(h: Seq<char>, n: Seq<char>, i: int, k: int)
    requires
        0 <= i <= k,
        forall|j: int| i <= j < k ==> #[trigger] first_match_from(h, n, j) == first_match_from(h, n, j + 1),
    ensures
        first_match_from(h, n, i) == first_match_from(h, n, k),
    decreases k - i,
{
    if i < k {
        lemma_first_match_skip(h, n, i + 1, k);
    }
}

/// The parent of `dir/name` is `dir`, when `name` holds no `/`.
pub proof fn law_parent_of_child(dir: Seq<char>, name: Seq<char>)
    requires
        !name.contains('/'),
    ensures
        parent_path(join_path(dir, name)) == dir,
    decreases name.len(),
{
    lemma_last_slash_of_join(dir, name);
    assert(join_path(dir, name).take(dir.len() as int) =~= dir);
}

proof fn lemma_last_slash_of_join(dir: Seq<char>, name: Seq<char>)
    requires
        !name.contains('/'),
    ensures
        last_slash(join_path(dir, name)) == dir.len(),
    decreases name.len(),
{
    let p = join_path(dir, name);
    if name.len() == 0 {
        assert(p.last() == '/');
    } else {
        assert(p.last() == name.last());
        assert(!name.drop_last().contains('/')) by {
            if name.drop_last().contains('/') {
                let k = choose|k: int| 0 <= k < name.drop_last().len() && name.drop_last()[k] == '/';
                assert(name[k] == '/');
            }
        }
        assert(p.drop_last() =~= join_path(dir, name.drop_last()));
        lemma_last_slash_of_join(dir, name.drop_last());
    }
}

} // verus!
