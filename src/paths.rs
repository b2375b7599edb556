//! Where the cache of a document lives, and what its files are called.
//!
//! Paths are sequences of characters in which `/` and `\` separate components.
use vstd::prelude::*;
use crate::error::Error;
use crate::text::{chars_of, string_of, push_all, push_decimal, decimal};

verus! {

pub open spec fn is_separator(c: char) -> bool {
    c == '/' || c == '\\'
}

/// Where the last component of `p.take(i)` begins: just after its last separator.
pub open spec fn name_start_in(p: Seq<char>, i: nat) -> nat
    decreases i,
{
    if i == 0 {
        0
    } else if is_separator(p[i - 1]) {
        i
    } else {
        name_start_in(p, (i - 1) as nat)
    }
}

pub open spec fn name_start(p: Seq<char>) -> nat {
    name_start_in(p, p.len())
}

/// The last component of a path.
pub open spec fn file_name(p: Seq<char>) -> Seq<char> {
    p.subrange(name_start(p) as int, p.len() as int)
}

/// Everything before the last component, its trailing separator included.
pub open spec fn parent_prefix(p: Seq<char>) -> Seq<char> {
    p.subrange(0, name_start(p) as int)
}

/// A path names a file unless its last component is empty, `.` or `..`.
///
/// A path that ends in a separator or in `.` names a directory, not a document.
/// It is refused rather than read as the name of the directory it ends in
/// (`/docs/` is not taken to mean a document called `docs`).
pub open spec fn has_file_name(p: Seq<char>) -> bool {
    let n = file_name(p);
    n.len() > 0 && n != seq!['.'] && n != seq!['.', '.']
}

/// Index of the last `.` in `n.take(i)`, or -1.
pub open spec fn last_dot_in(n: Seq<char>, i: nat) -> int
    decreases i,
{
    if i == 0 {
        -1
    } else if n[i - 1] == '.' {
        i - 1
    } else {
        last_dot_in(n, (i - 1) as nat)
    }
}

/// A file name without its extension. A leading dot starts no extension.
pub open spec fn stem(n: Seq<char>) -> Seq<char> {
    let d = last_dot_in(n, n.len());
    if d > 0 {
        n.subrange(0, d)
    } else {
        n
    }
}

pub open spec fn data_suffix() -> Seq<char> {
    seq!['_', 'd', 'a', 't', 'a']
}

pub open spec fn image_extension() -> Seq<char> {
    seq!['.', 'w', 'e', 'b', 'p']
}

/// The cache directory of a document: beside it, named by its stem and `_data`.
pub open spec fn data_dir_of(p: Seq<char>) -> Seq<char> {
    parent_prefix(p) + stem(file_name(p)) + data_suffix()
}

/// The file that holds page `page_number` (1-based) in cache directory `dir`.
pub open spec fn page_path(dir: Seq<char>, page_number: nat) -> Seq<char> {
    dir.push('/') + decimal(page_number) + image_extension()
}

/// A file directly inside `dir`.
pub open spec fn join(dir: Seq<char>, name: Seq<char>) -> Seq<char> {
    dir.push('/') + name
}

fn name_start_exec(p: &Vec<char>) -> (r: usize)
    ensures
        r as nat == name_start(p@),
        r <= p.len(),
{
    let mut start: usize = 0;
    let mut i: usize = 0;
    while i < p.len()
        invariant
            i <= p.len(),
            start as nat == name_start_in(p@, i as nat),
            start <= i,
        decreases p.len() - i,
    {
        if p[i] == '/' || p[i] == '\\' {
            start = i + 1;
        }
        i += 1;
    }
    start
}

fn last_dot_exec(n: &Vec<char>) -> (r: Option<usize>)
    ensures
        match r {
            Some(d) => d as int == last_dot_in(n@, n.len() as nat) && d < n.len(),
            None => last_dot_in(n@, n.len() as nat) == -1,
        },
{
    let mut found: Option<usize> = None;
    let mut i: usize = 0;
    while i < n.len()
        invariant
            i <= n.len(),
            match found {
                Some(d) => d as int == last_dot_in(n@, i as nat) && d < i,
                None => last_dot_in(n@, i as nat) == -1,
            },
        decreases n.len() - i,
    {
        if n[i] == '.' {
            found = Some(i);
        }
        i += 1;
    }
    found
}

fn push_image_extension(out: &mut Vec<char>)
    ensures
        final(out)@ == old(out)@ + image_extension(),
{
    out.push('.');
    out.push('w');
    out.push('e');
    out.push('b');
    out.push('p');
    assert(final(out)@ =~= old(out)@ + image_extension());
}

/// The cache directory of `path`, as characters.
pub fn data_dir_chars(path: &Vec<char>) -> (r: Result<Vec<char>, Error>)
    ensures
        match r {
            Ok(d) => has_file_name(path@) && d@ == data_dir_of(path@),
            Err(e) => !has_file_name(path@) && e == Error::InvalidPath,
        },
{
    let start = name_start_exec(path);
    let mut name: Vec<char> = Vec::new();
    let mut dir: Vec<char> = Vec::new();
    let mut i: usize = 0;
    while i < path.len()
        invariant
            start <= path.len(),
            i <= path.len(),
            i <= start ==> dir@ == path@.subrange(0, i as int) && name@.len() == 0,
            i > start ==> dir@ == path@.subrange(0, start as int)
                && name@ == path@.subrange(start as int, i as int),
        decreases path.len() - i,
    {
        if i < start {
            dir.push(path[i]);
            assert(path@.subrange(0, i + 1) == path@.subrange(0, i as int).push(path@[i as int]));
        } else {
            name.push(path[i]);
            assert(path@.subrange(start as int, i + 1) == path@.subrange(start as int, i as int).push(path@[i as int]));
        }
        i += 1;
    }
    assert(dir@ == parent_prefix(path@));
    assert(name@ == file_name(path@));
    if name.len() == 0 || (name.len() == 1 && name[0] == '.')
        || (name.len() == 2 && name[0] == '.' && name[1] == '.') {
        proof {
            if name@.len() == 1 {
                assert(name@ =~= seq!['.']);
            }
            if name@.len() == 2 {
                assert(name@ =~= seq!['.', '.']);
            }
        }
        return Err(Error::InvalidPath);
    }
    let end = match last_dot_exec(&name) {
        Some(d) => if d > 0 { d } else { name.len() },
        None => name.len(),
    };
    let mut j: usize = 0;
    while j < end
        invariant
            end <= name.len(),
            j <= end,
            dir@ == parent_prefix(path@) + name@.subrange(0, j as int),
        decreases end - j,
    {
        dir.push(name[j]);
        j += 1;
        assert(name@.subrange(0, j as int) == name@.subrange(0, j - 1).push(name@[j - 1]));
        assert(dir@ =~= parent_prefix(path@) + name@.subrange(0, j as int));
    }
    assert(name@.subrange(0, end as int) == stem(name@));
    dir.push('_');
    dir.push('d');
    dir.push('a');
    dir.push('t');
    dir.push('a');
    assert(dir@ =~= data_dir_of(path@));
    Ok(dir)
}

/// The cache directory of a document, and the pattern name of its page images
/// (`page.webp` inside that directory).
pub fn create_output_paths(path: &str) -> (r: Result<(String, String), Error>)
    ensures
        match r {
            Ok((dir, pattern)) => has_file_name(path@) && dir@ == data_dir_of(path@)
                && pattern@ == join(data_dir_of(path@), seq!['p', 'a', 'g', 'e']) + image_extension(),
            Err(e) => !has_file_name(path@) && e == Error::InvalidPath,
        },
{
    let p = chars_of(path);
    let dir = data_dir_chars(&p)?;
    let mut pattern = dir.clone();
    pattern.push('/');
    pattern.push('p');
    pattern.push('a');
    pattern.push('g');
    pattern.push('e');
    push_image_extension(&mut pattern);
    assert(pattern@ =~= join(dir@, seq!['p', 'a', 'g', 'e']) + image_extension());
    Ok((string_of(&dir), string_of(&pattern)))
}

/// The file of page `page_number` (1-based) in cache directory `dir`.
pub fn page_path_chars(dir: &Vec<char>, page_number: usize) -> (r: Vec<char>)
    ensures
        r@ == page_path(dir@, page_number as nat),
{
    let mut out = dir.clone();
    out.push('/');
    push_decimal(&mut out, page_number);
    push_image_extension(&mut out);
    out
}

/// The file `name` directly inside `dir`.
pub fn join_chars(dir: &Vec<char>, name: &Vec<char>) -> (r: Vec<char>)
    ensures
        r@ == join(dir@, name@),
{
    let mut out = dir.clone();
    out.push('/');
    push_all(&mut out, name);
    out
}

proof fn lemma_name_start_bounds(p: Seq<char>, i: nat)
    requires
        i <= p.len(),
    ensures
        name_start_in(p, i) <= i,
        name_start_in(p, i) > 0 ==> is_separator(p[name_start_in(p, i) - 1]),
        forall|j: int| name_start_in(p, i) <= j < i ==> !is_separator(#[trigger] p[j]),
    decreases i,
{
    if i > 0 && !is_separator(p[i - 1]) {
        lemma_name_start_bounds(p, (i - 1) as nat);
    }
}

proof fn lemma_name_start_at(q: Seq<char>, k: nat, i: nat)
    requires
        k <= i <= q.len(),
        k == 0 || is_separator(q[k - 1]),
        forall|j: int| k <= j < i ==> !is_separator(#[trigger] q[j]),
    ensures
        name_start_in(q, i) == k,
    decreases i,
{
    if i > k {
        lemma_name_start_at(q, k, (i - 1) as nat);
    }
}

proof fn lemma_last_dot_bounds(n: Seq<char>, i: nat)
    ensures
        -1 <= last_dot_in(n, i) < i,
    decreases i,
{
    if i > 0 {
        lemma_last_dot_bounds(n, (i - 1) as nat);
    }
}

/// The cache directory sits in the document's own directory and is named by the
/// document's stem followed by `_data`, so documents with different stems in
/// one directory get different cache directories.
pub proof fn data_dir_beside_document(p: Seq<char>)
    requires
        has_file_name(p),
    ensures
        parent_prefix(data_dir_of(p)) == parent_prefix(p),
        file_name(data_dir_of(p)) == stem(file_name(p)) + data_suffix(),
{
    let ns = name_start(p);
    let name = file_name(p);
    let q = data_dir_of(p);
    let st = stem(name);
    lemma_name_start_bounds(p, p.len());
    lemma_last_dot_bounds(name, name.len());
    assert(st.len() <= name.len());
    assert forall|j: int| 0 <= j < st.len() implies #[trigger] st[j] == p[ns + j] by {
        assert(st[j] == name[j]);
    }
    assert forall|j: int| ns <= j < q.len() implies !is_separator(#[trigger] q[j]) by {
        if j < ns + st.len() {
            assert(q[j] == st[j - ns]);
            assert(st[j - ns] == p[j]);
        } else {
            assert(q[j] == data_suffix()[j - ns - st.len()]);
        }
    }
    if ns > 0 {
        assert(q[ns - 1] == p[ns - 1]);
    }
    lemma_name_start_at(q, ns, q.len());
    assert(parent_prefix(q) =~= parent_prefix(p));
    assert(file_name(q) =~= st + data_suffix());
}

} // verus!
