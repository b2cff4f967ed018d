//! A best-effort, line-oriented scan of a build manifest for the repository
//! link it declares. It is no manifest parser: a line counts as a declaration
//! when, with its `=` signs removed, it contains `repository`; the link is what
//! follows a fixed-width key prefix, without its first three `"` signs.
use vstd::prelude::*;
use vstd::string::StrSliceExecFns;
use vstd::string::StringExecFns;

verus! {

/// How many characters of a declaring line are taken as the key prefix
/// (`repository = `) and skipped.
pub const KEY_PREFIX_LEN: usize = 13;

/// How many `"` signs are removed from what follows the key prefix.
pub const QUOTES_REMOVED: usize = 3;

/// The word that marks a line as declaring the repository.
pub open spec fn repository_key() -> Seq<char> {
    seq!['r', 'e', 'p', 'o', 's', 'i', 't', 'o', 'r', 'y']
}

/// The lines of a text: the pieces between its `\n` signs, in order. A text
/// without `\n` is one line; a `\n` at the end is followed by an empty line.
pub open spec fn lines(s: Seq<char>) -> Seq<Seq<char>>
    decreases s.len(),
{
    if s.len() == 0 {
        seq![Seq::<char>::empty()]
    } else {
        let before = lines(s.drop_last());
        if s.last() == '\n' {
            before.push(Seq::<char>::empty())
        } else {
            before.update(before.len() - 1, before.last().push(s.last()))
        }
    }
}

/// The text with every `=` sign removed.
pub open spec fn without_equals(s: Seq<char>) -> Seq<char> {
    s.filter(|c: char| c != '=')
}

/// `needle` occurs in `hay` at position `i`.
pub open spec fn occurs_at(hay: Seq<char>, needle: Seq<char>, i: int) -> bool {
    0 <= i && i + needle.len() <= hay.len() && hay.subrange(i, i + needle.len()) == needle
}

/// `needle` occurs somewhere in `hay`.
pub open spec fn contains(hay: Seq<char>, needle: Seq<char>) -> bool {
    exists|i: int| occurs_at(hay, needle, i)
}

/// The line declares the repository: with its `=` signs removed it contains
/// the key.
pub open spec fn declares_repository(line: Seq<char>) -> bool {
    contains(without_equals(line), repository_key())
}

/// The text with its first `n` `"` signs removed (all of them, if it holds
/// fewer).
pub open spec fn without_first_quotes(s: Seq<char>, n: nat) -> Seq<char>
    decreases s.len(),
{
    if s.len() == 0 {
        s
    } else if s[0] == '"' && n > 0 {
        without_first_quotes(s.drop_first(), (n - 1) as nat)
    } else {
        seq![s[0]] + without_first_quotes(s.drop_first(), n)
    }
}

/// What follows the key prefix of a line: empty where the line is no longer
/// than the prefix.
pub open spec fn after_key_prefix(line: Seq<char>) -> Seq<char> {
    if line.len() <= KEY_PREFIX_LEN {
        Seq::<char>::empty()
    } else {
        line.subrange(KEY_PREFIX_LEN as int, line.len() as int)
    }
}

/// The link that a declaring line gives.
pub open spec fn link_of_line(line: Seq<char>) -> Seq<char> {
    without_first_quotes(after_key_prefix(line), QUOTES_REMOVED as nat)
}

/// The link of the last declaring line among `ls`; empty where none declares.
pub open spec fn last_link(ls: Seq<Seq<char>>) -> Seq<char>
    decreases ls.len(),
{
    if ls.len() == 0 {
        Seq::<char>::empty()
    } else if declares_repository(ls.last()) {
        link_of_line(ls.last())
    } else {
        last_link(ls.drop_last())
    }
}

/// The repository link that a manifest declares: that of its last declaring
/// line, or empty.
pub open spec fn repository_link(manifest: Seq<char>) -> Seq<char> {
    last_link(lines(manifest))
}

/// Among lines of which none declares the repository, the last link is empty.
proof fn lemma_last_link_of_none(ls: Seq<Seq<char>>)
    requires
        forall|i: int| 0 <= i < ls.len() ==> !declares_repository(#[trigger] ls[i]),
    ensures
        last_link(ls) == Seq::<char>::empty(),
    decreases ls.len(),
{
    if ls.len() > 0 {
        lemma_last_link_of_none(ls.drop_last());
    }
}

/// The last link of a sequence of lines is that of its last declaring line.
proof fn lemma_last_link_of_last(ls: Seq<Seq<char>>, j: int)
    requires
        0 <= j < ls.len(),
        declares_repository(ls[j]),
        forall|k: int| j < k < ls.len() ==> !declares_repository(#[trigger] ls[k]),
    ensures
        last_link(ls) == link_of_line(ls[j]),
    decreases ls.len(),
{
    if j < ls.len() - 1 {
        lemma_last_link_of_last(ls.drop_last(), j);
    }
}

/// A manifest none of whose lines declares the repository has the empty link.
pub proof fn lemma_no_declaration_gives_empty(manifest: Seq<char>)
    requires
        forall|i: int|
            0 <= i < lines(manifest).len() ==> !declares_repository(#[trigger] lines(manifest)[i]),
    ensures
        repository_link(manifest) == Seq::<char>::empty(),
{
    lemma_last_link_of_none(lines(manifest));
}

/// Where several lines of a manifest declare the repository, the last of them
/// gives the link, whatever the earlier ones hold.
pub proof fn lemma_last_declaration_wins(manifest: Seq<char>, j: int)
    requires
        0 <= j < lines(manifest).len(),
        declares_repository(lines(manifest)[j]),
        forall|k: int|
            j < k < lines(manifest).len() ==> !declares_repository(#[trigger] lines(manifest)[k]),
    ensures
        repository_link(manifest) == link_of_line(lines(manifest)[j]),
{
    lemma_last_link_of_last(lines(manifest), j);
}

/// The conventional declaration `repository = "url"`.
pub open spec fn quoted_declaration(url: Seq<char>) -> Seq<char> {
    repository_key() + seq![' ', '=', ' ', '"'] + url + seq!['"']
}

/// Removing `=` signs leaves a text that holds none unchanged.
proof fn lemma_without_equals_none(s: Seq<char>)
    requires
        forall|i: int| 0 <= i < s.len() ==> s[i] != '=',
    ensures
        without_equals(s) == s,
    decreases s.len(),
{
    reveal_with_fuel(Seq::filter, 1);
    if s.len() > 0 {
        assert(s[s.len() - 1] != '=');
        lemma_without_equals_none(s.drop_last());
        assert(s.drop_last().push(s.last()) =~= s);
    }
}

/// A text without `\n` is a single line.
proof fn lemma_lines_of_one_line(s: Seq<char>)
    requires
        forall|i: int| 0 <= i < s.len() ==> s[i] != '\n',
    ensures
        lines(s) == seq![s],
    decreases s.len(),
{
    if s.len() == 0 {
        assert(s =~= Seq::<char>::empty());
    } else {
        let before = lines(s.drop_last());
        assert(s[s.len() - 1] != '\n');
        lemma_lines_of_one_line(s.drop_last());
        assert(before.last().push(s.last()) =~= s);
        assert(lines(s) == before.update(before.len() - 1, before.last().push(s.last())));
        assert(before.update(0, s) =~= seq![s]);
    }
}

/// Removing `"` signs skips over a stretch that holds none.
proof fn lemma_quotes_after(u: Seq<char>, rest: Seq<char>, n: nat)
    requires
        forall|i: int| 0 <= i < u.len() ==> u[i] != '"',
    ensures
        without_first_quotes(u + rest, n) == u + without_first_quotes(rest, n),
    decreases u.len(),
{
    if u.len() > 0 {
        lemma_quotes_after(u.drop_first(), rest, n);
        assert((u + rest).drop_first() =~= u.drop_first() + rest);
        assert(u + without_first_quotes(rest, n) =~= seq![u[0]] + (u.drop_first()
            + without_first_quotes(rest, n)));
    } else {
        assert(u + rest =~= rest);
        assert(u + without_first_quotes(rest, n) =~= without_first_quotes(rest, n));
    }
}

/// A manifest made of the one line `repository = "url"`, where `url` holds no
/// `"` and no `\n`, declares exactly `url`.
pub proof fn lemma_quoted_declaration_gives_url(url: Seq<char>)
    requires
        forall|i: int| 0 <= i < url.len() ==> url[i] != '"' && url[i] != '\n',
    ensures
        repository_link(quoted_declaration(url)) == url,
{
    let line = quoted_declaration(url);
    let head = repository_key() + seq![' ', '=', ' ', '"'];
    let tail = seq![' ', '=', ' ', '"'] + url + seq!['"'];
    assert(line =~= head + url + seq!['"']);
    assert(line =~= repository_key() + tail);
    lemma_without_equals_none(repository_key());
    assert(without_equals(line) == repository_key() + without_equals(tail)) by {
        Seq::filter_distributes_over_add(repository_key(), tail, |c: char| c != '=');
    }
    assert(without_equals(line).subrange(0, 10) =~= repository_key());
    assert(occurs_at(without_equals(line), repository_key(), 0));
    assert forall|i: int| 0 <= i < line.len() implies line[i] != '\n' by {
        if i >= head.len() && i < head.len() + url.len() {
            assert(line[i] == url[i - head.len()]);
        }
    }
    lemma_lines_of_one_line(line);
    assert(seq![line].drop_last() =~= Seq::<Seq<char>>::empty());
    assert(last_link(seq![line]) == link_of_line(line));
    let after = seq!['"'] + (url + seq!['"']);
    assert(after_key_prefix(line) =~= after);
    assert(after[0] == '"');
    assert(after.drop_first() =~= url + seq!['"']);
    assert(without_first_quotes(after, 3) == without_first_quotes(url + seq!['"'], 2));
    lemma_quotes_after(url, seq!['"'], 2);
    assert(seq!['"'].drop_first() =~= Seq::<char>::empty());
    assert(without_first_quotes(seq!['"'], 2) == without_first_quotes(Seq::<char>::empty(), 1));
    assert(url + Seq::<char>::empty() =~= url);
}

/// The characters of `s`, in order.
fn chars_of(s: &str) -> (v: Vec<char>)
    ensures
        v@ == s@,
{
    broadcast use vstd::string::axiom_spec_iter;

    let mut v: Vec<char> = Vec::new();
    for c in it: s.chars()
        invariant
            v@ == it.seq().subrange(0, it.index() as int),
    {
        v.push(c);
    }
    v
}

/// Whether `key` occurs in `hay`.
fn occurs_in(hay: &Vec<char>, key: &Vec<char>) -> (r: bool)
    ensures
        r == contains(hay@, key@),
{
    if key.len() > hay.len() {
        assert(!contains(hay@, key@));
        return false;
    }
    let last_start: usize = hay.len() - key.len();
    let mut i: usize = 0;
    while i <= last_start
        invariant
            last_start == hay.len() - key.len(),
            i <= last_start + 1,
            forall|j: int| 0 <= j < i ==> !occurs_at(hay@, key@, j),
        decreases last_start + 1 - i,
    {
        let mut k: usize = 0;
        let mut same: bool = true;
        while k < key.len() && same
            invariant
                i <= last_start,
                last_start == hay.len() - key.len(),
                k <= key.len(),
                same == (forall|m: int| 0 <= m < k ==> hay@[i + m] == key@[m]),
            decreases key.len() - k,
        {
            same = hay[i + k] == key[k];
            k = k + 1;
        }
        if same {
            assert(hay@.subrange(i as int, i + key.len()) =~= key@);
            assert(occurs_at(hay@, key@, i as int));
            return true;
        }
        assert(!occurs_at(hay@, key@, i as int)) by {
            if occurs_at(hay@, key@, i as int) {
                assert(hay@.subrange(i as int, i + key.len())[k - 1] == hay@[i + k - 1]);
            }
        }
        i = i + 1;
    }
    false
}

/// Whether the line `chars[start..end]` declares the repository.
fn line_declares_repository(chars: &Vec<char>, start: usize, end: usize) -> (r: bool)
    requires
        start <= end <= chars.len(),
    ensures
        r == declares_repository(chars@.subrange(start as int, end as int)),
{
    let mut kept: Vec<char> = Vec::new();
    let mut k: usize = start;
    while k < end
        invariant
            start <= k <= end <= chars.len(),
            kept@ == without_equals(chars@.subrange(start as int, k as int)),
        decreases end - k,
    {
        let c = chars[k];
        assert(chars@.subrange(start as int, k + 1).drop_last() =~= chars@.subrange(
            start as int,
            k as int,
        ));
        assert(chars@.subrange(start as int, k + 1).last() == c);
        reveal_with_fuel(Seq::filter, 1);
        if c != '=' {
            kept.push(c);
        }
        k = k + 1;
    }
    let key: Vec<char> = vec!['r', 'e', 'p', 'o', 's', 'i', 't', 'o', 'r', 'y'];
    assert(key@ =~= repository_key());
    occurs_in(&kept, &key)
}

/// The link that the line `s[start..end]` gives: what follows its key
/// prefix, without the first `"` signs there. `chars` holds the characters of
/// `s`.
fn link_of_declaring_line(s: &str, chars: &Vec<char>, start: usize, end: usize) -> (link: String)
    requires
        chars@ == s@,
        start <= end <= chars.len(),
    ensures
        link@ == link_of_line(s@.subrange(start as int, end as int)),
{
    let ghost line = s@.subrange(start as int, end as int);
    let mut link = String::new();
    if end - start <= KEY_PREFIX_LEN {
        assert(after_key_prefix(line) =~= Seq::<char>::empty());
        return link;
    }
    let from: usize = start + KEY_PREFIX_LEN;
    let ghost target = without_first_quotes(s@.subrange(from as int, end as int), QUOTES_REMOVED as nat);
    assert(after_key_prefix(line) =~= s@.subrange(from as int, end as int));
    let mut piece_start: usize = from;
    let mut quotes_left: usize = QUOTES_REMOVED;
    let mut k: usize = from;
    assert(link@ + s@.subrange(piece_start as int, k as int) =~= Seq::<char>::empty());
    while k < end
        invariant
            from <= piece_start <= k <= end <= chars.len(),
            chars@ == s@,
            quotes_left <= QUOTES_REMOVED,
            link@ + s@.subrange(piece_start as int, k as int) + without_first_quotes(
                s@.subrange(k as int, end as int),
                quotes_left as nat,
            ) == target,
        decreases end - k,
    {
        let ghost rest = s@.subrange(k as int, end as int);
        let ghost done = link@ + s@.subrange(piece_start as int, k as int);
        assert(rest[0] == chars@[k as int]);
        assert(rest.drop_first() =~= s@.subrange(k + 1, end as int));
        if chars[k] == '"' && quotes_left > 0 {
            let piece = s.substring_char(piece_start, k);
            link.append(piece);
            piece_start = k + 1;
            quotes_left = quotes_left - 1;
            assert(link@ + s@.subrange(piece_start as int, k + 1) =~= done);
        } else {
            assert(done + (seq![rest[0]] + without_first_quotes(rest.drop_first(), quotes_left as nat))
                =~= link@ + s@.subrange(piece_start as int, k + 1) + without_first_quotes(
                rest.drop_first(),
                quotes_left as nat,
            ));
        }
        k = k + 1;
    }
    assert(without_first_quotes(s@.subrange(k as int, end as int), quotes_left as nat)
        =~= Seq::<char>::empty());
    let piece = s.substring_char(piece_start, end);
    link.append(piece);
    assert(link@ =~= target);
    link
}

/// Every text has at least one line.
proof fn lemma_lines_nonempty(s: Seq<char>)
    ensures
        lines(s).len() >= 1,
    decreases s.len(),
{
    if s.len() > 0 {
        lemma_lines_nonempty(s.drop_last());
    }
}

/// The repository link that `manifest` declares: that of its last line which,
/// with its `=` signs removed, contains `repository`; empty where no line does.
pub fn repository_link_in(manifest: &str) -> (link: String)
    ensures
        link@ == repository_link(manifest@),
{
    let chars = chars_of(manifest);
    let n: usize = chars.len();
    let mut found: Option<(usize, usize)> = None;
    let mut start: usize = 0;
    let mut i: usize = 0;
    proof {
        lemma_lines_nonempty(manifest@.subrange(0, 0));
        assert(manifest@.subrange(0, 0) =~= Seq::<char>::empty());
    }
    while i < n
        invariant
            chars@ == manifest@,
            n == chars.len(),
            start <= i <= n,
            lines(manifest@.subrange(0, i as int)).len() >= 1,
            lines(manifest@.subrange(0, i as int)).last() == manifest@.subrange(
                start as int,
                i as int,
            ),
            match found {
                None => last_link(lines(manifest@.subrange(0, i as int)).drop_last())
                    == Seq::<char>::empty(),
                Some((a, b)) => a <= b <= n && last_link(
                    lines(manifest@.subrange(0, i as int)).drop_last(),
                ) == link_of_line(manifest@.subrange(a as int, b as int)),
            },
        decreases n - i,
    {
        let ghost before = lines(manifest@.subrange(0, i as int));
        let ghost line = manifest@.subrange(start as int, i as int);
        proof {
            let p = manifest@.subrange(0, i + 1);
            assert(p.drop_last() =~= manifest@.subrange(0, i as int));
            assert(p.last() == chars@[i as int]);
        }
        if chars[i] == '\n' {
            if line_declares_repository(&chars, start, i) {
                found = Some((start, i));
            }
            start = i + 1;
            proof {
                let after = lines(manifest@.subrange(0, i + 1));
                assert(after == before.push(Seq::<char>::empty()));
                assert(after.drop_last() =~= before);
                assert(manifest@.subrange(start as int, i + 1) =~= Seq::<char>::empty());
            }
        } else {
            proof {
                let after = lines(manifest@.subrange(0, i + 1));
                assert(after.drop_last() =~= before.drop_last());
                assert(after.last() =~= manifest@.subrange(start as int, i + 1));
            }
        }
        i = i + 1;
    }
    assert(manifest@.subrange(0, n as int) =~= manifest@);
    if line_declares_repository(&chars, start, n) {
        found = Some((start, n));
    }
    match found {
        None => String::new(),
        Some((a, b)) => link_of_declaring_line(manifest, &chars, a, b),
    }
}

/// The repository link of a manifest that may not have been readable: empty
/// where it could not be read (`None`), else as `repository_link_in` finds it.
pub fn repository_link_or_empty(manifest: Option<&str>) -> (link: String)
    ensures
        manifest is None ==> link@ == Seq::<char>::empty(),
        manifest matches Some(m) ==> link@ == repository_link(m@),
{
    match manifest {
        None => String::new(),
        Some(m) => repository_link_in(m),
    }
}

} // verus!
