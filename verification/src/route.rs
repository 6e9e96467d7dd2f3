//! From a page file to its route.
//!
//! A file keeps its own name in its route: `pages/blog/post.tsx` is served
//! at `/blog/post`. Only an `index` file stands for its directory, and only
//! that one trailing segment is dropped: `pages/a/index/index.tsx` is
//! served at `/a/index`.

use vstd::prelude::*;
use crate::text::{ends_with, same_text, starts_with};

verus! {

/// The root route, `/`.
pub open spec fn root_route() -> Seq<char> {
    "/"@
}

/// The part of a path after a leading `src/pages/` or `pages/`; the whole
/// path where it starts with neither.
pub open spec fn strip_pages_prefix(path: Seq<char>) -> Seq<char> {
    if "src/pages/"@.is_prefix_of(path) {
        path.skip("src/pages/"@.len() as int)
    } else if "pages/"@.is_prefix_of(path) {
        path.skip("pages/"@.len() as int)
    } else {
        path
    }
}

/// The path without a trailing `.tsx` or `.ts`; the whole path where it ends
/// with neither.
pub open spec fn strip_extension(path: Seq<char>) -> Seq<char> {
    if ".tsx"@.is_suffix_of(path) {
        path.take(path.len() - ".tsx"@.len())
    } else if ".ts"@.is_suffix_of(path) {
        path.take(path.len() - ".ts"@.len())
    } else {
        path
    }
}

/// The path with every backslash turned into a forward slash.
pub open spec fn normalize_separators(path: Seq<char>) -> Seq<char> {
    Seq::new(
        path.len(),
        |i: int|
            if path[i] == '\\' {
                '/'
            } else {
                path[i]
            },
    )
}

/// Index of the last `/` in a text, or -1 where it holds none.
pub open spec fn last_slash(text: Seq<char>) -> int
    decreases text.len(),
{
    if text.len() == 0 {
        -1
    } else if text.last() == '/' {
        text.len() - 1
    } else {
        last_slash(text.drop_last())
    }
}

/// The route one level up: what stands before the last `/`, or the root
/// where that is nothing or the text holds no `/`.
pub open spec fn parent_of(route: Seq<char>) -> Seq<char> {
    let cut = last_slash(route);
    if cut <= 0 {
        root_route()
    } else {
        route.take(cut)
    }
}

/// A route whose last segment is `index` stands for its directory; any
/// other route stands for itself.
pub open spec fn collapse_index(route: Seq<char>) -> Seq<char> {
    if "/index"@.is_suffix_of(route) {
        let dir = route.take(route.len() - "/index"@.len());
        if dir.len() == 0 {
            root_route()
        } else {
            dir
        }
    } else {
        route
    }
}

/// The route served for a page file.
pub open spec fn route_of(file: Seq<char>) -> Seq<char> {
    let stem = normalize_separators(strip_extension(strip_pages_prefix(file)));
    if stem == "index"@ {
        root_route()
    } else {
        collapse_index(root_route() + stem)
    }
}

/// The five routes with a special meaning to the framework.
pub open spec fn is_reserved(route: Seq<char>) -> bool {
    ||| route == "/404"@
    ||| route == "/500"@
    ||| route == "/_app"@
    ||| route == "/_document"@
    ||| route == "/_error"@
}

/// A `/` at `cut` with none after it is the last one.
pub proof fn lemma_last_slash_at(text: Seq<char>, cut: int)
    requires
        0 <= cut < text.len(),
        text[cut] == '/',
        forall|j: int| cut < j < text.len() ==> text[j] != '/',
    ensures
        last_slash(text) == cut,
    decreases text.len(),
{
    if cut < text.len() - 1 {
        lemma_last_slash_at(text.drop_last(), cut);
    }
}

/// A text without any `/` has no last one.
pub proof fn lemma_last_slash_none(text: Seq<char>)
    requires
        forall|j: int| 0 <= j < text.len() ==> text[j] != '/',
    ensures
        last_slash(text) == -1,
    decreases text.len(),
{
    if text.len() > 0 {
        lemma_last_slash_none(text.drop_last());
    }
}

/// Dropping a trailing `index` segment is going one level up.
pub proof fn lemma_collapse_is_parent(route: Seq<char>)
    requires
        "/index"@.is_suffix_of(route),
    ensures
        collapse_index(route) == parent_of(route),
{
    reveal_strlit("/index");
    let cut = route.len() - 6;
    let tail = route.subrange(cut, route.len() as int);
    assert forall|j: int| cut < j < route.len() implies route[j] != '/' by {
        assert(route[j] == tail[j - cut]);
    }
    assert(route[cut] == tail[0]);
    lemma_last_slash_at(route, cut);
}

/// The route one level above `path`: the text before its last `/`, and `/`
/// where that text is empty or `path` holds no `/`.
pub fn remove_filename(path: &str) -> (parent: String)
    ensures
        parent@ == parent_of(path@),
{
    let n: usize = path.unicode_len();
    let mut i: usize = n;
    while i > 0 && path.get_char(i - 1) != '/'
        invariant
            n == path@.len(),
            i <= n,
            forall|j: int| i <= j < n ==> path@[j] != '/',
        decreases i,
    {
        i -= 1;
    }
    if i <= 1 {
        proof {
            if i == 0 {
                lemma_last_slash_none(path@);
            } else {
                lemma_last_slash_at(path@, 0);
            }
        }
        String::from_str("/")
    } else {
        proof {
            lemma_last_slash_at(path@, i - 1);
        }
        String::from_str(path.substring_char(0, i - 1))
    }
}

/// Appends `text` to `out`, writing `/` for every backslash.
fn append_normalized(out: &mut String, text: &str)
    ensures
        final(out)@ == old(out)@ + normalize_separators(text@),
{
    let n: usize = text.unicode_len();
    let mut i: usize = 0;
    while i < n
        invariant
            n == text@.len(),
            i <= n,
            out@ == old(out)@ + normalize_separators(text@).take(i as int),
        decreases n - i,
    {
        let ghost before = out@;
        if text.get_char(i) == '\\' {
            proof {
                reveal_strlit("/");
            }
            out.append("/");
            assert("/"@ =~= seq!['/']);
        } else {
            out.append(text.substring_char(i, i + 1));
            assert(text@.subrange(i as int, i + 1) =~= seq![text@[i as int]]);
        }
        assert(out@ =~= before.push(normalize_separators(text@)[i as int]));
        assert(normalize_separators(text@).take(i + 1) =~= normalize_separators(text@).take(
            i as int,
        ).push(normalize_separators(text@)[i as int]));
        i += 1;
    }
    assert(normalize_separators(text@).take(n as int) =~= normalize_separators(text@));
}

/// Every route begins with `/`.
pub proof fn lemma_route_starts_with_slash(file: Seq<char>)
    ensures
        route_of(file).len() > 0,
        route_of(file)[0] == '/',
{
    reveal_strlit("/");
    reveal_strlit("/index");
}

/// The route served for the page file at `file`: the path without a leading
/// `src/pages/` or `pages/` and without a trailing `.tsx` or `.ts`, with
/// forward slashes, behind a `/`. An `index` file stands for its directory.
pub fn file_to_url_path(file: &str) -> (route: String)
    ensures
        route@ == route_of(file@),
        route@.len() > 0,
        route@[0] == '/',
{
    proof {
        lemma_route_starts_with_slash(file@);
    }
    let n: usize = file.unicode_len();
    let relative: &str = if starts_with(file, "src/pages/") {
        file.substring_char("src/pages/".unicode_len(), n)
    } else if starts_with(file, "pages/") {
        file.substring_char("pages/".unicode_len(), n)
    } else {
        file
    };
    assert(relative@ == strip_pages_prefix(file@));
    let m: usize = relative.unicode_len();
    let stem: &str = if ends_with(relative, ".tsx") {
        relative.substring_char(0, m - ".tsx".unicode_len())
    } else if ends_with(relative, ".ts") {
        relative.substring_char(0, m - ".ts".unicode_len())
    } else {
        relative
    };
    assert(stem@ == strip_extension(relative@));
    let mut route = String::from_str("/");
    append_normalized(&mut route, stem);
    proof {
        reveal_strlit("/");
        reveal_strlit("/index");
        reveal_strlit("index");
        if route@ == "/index"@ {
            assert(normalize_separators(stem@) =~= route@.subrange(1, 6));
            assert(normalize_separators(stem@) =~= "index"@);
        }
        if normalize_separators(stem@) == "index"@ {
            assert(route@ =~= "/index"@);
        }
    }
    if same_text(route.as_str(), "/index") {
        String::from_str("/")
    } else if ends_with(route.as_str(), "/index") {
        proof {
            lemma_collapse_is_parent(route@);
        }
        remove_filename(route.as_str())
    } else {
        route
    }
}

/// Whether `route` is one of the five reserved routes.
pub fn is_reserved_route(route: &str) -> (reserved: bool)
    ensures
        reserved == is_reserved(route@),
{
    same_text(route, "/404") || same_text(route, "/500") || same_text(route, "/_app") || same_text(
        route,
        "/_document",
    ) || same_text(route, "/_error")
}

} // verus!
