//! What references stand for, on page URLs that are given by their parts.

use vstd::prelude::*;

use crate::search::first_index;
use crate::search::first_match;
use crate::search::last_index;
use crate::search::occurs_at;
use crate::url::directory;
use crate::url::has_scheme;
use crate::url::host;
use crate::url::host_start;
use crate::url::is_absolute;
use crate::url::origin;
use crate::url::resolved;
use crate::url::root_favicon;
use crate::url::scheme;

verus! {

/// Whether `name`, `site` and `path` can be the parts of a page URL
/// `name://site` + `path`: no `://` stands in the name, no `/` in the site, and
/// the path is empty or begins with a `/`.
pub open spec fn are_url_parts(name: Seq<char>, site: Seq<char>, path: Seq<char>) -> bool {
    &&& forall|i: int|
        0 <= i && i + 2 < name.len() ==> !(#[trigger] name[i] == ':' && name[i + 1] == '/'
            && name[i + 2] == '/')
    &&& forall|i: int| 0 <= i < site.len() ==> #[trigger] site[i] != '/'
    &&& path.len() > 0 ==> path[0] == '/'
}

/// The page URL with the given parts.
pub open spec fn url_of(name: Seq<char>, site: Seq<char>, path: Seq<char>) -> Seq<char> {
    name + seq![':', '/', '/'] + site + path
}

proof fn lemma_parts(name: Seq<char>, site: Seq<char>, path: Seq<char>)
    requires
        are_url_parts(name, site, path),
    ensures
        first_match(url_of(name, site, path), "://"@, 0) == Some(name.len() as int),
        has_scheme(url_of(name, site, path)),
        scheme(url_of(name, site, path)) == name,
        host(url_of(name, site, path)) == site,
        origin(url_of(name, site, path)) == name + seq![':', '/', '/'] + site,
        path.len() > 0 ==> first_index(
            url_of(name, site, path),
            '/',
            host_start(url_of(name, site, path)),
        ) == Some((name.len() + 3 + site.len()) as int),
        path.len() == 0 ==> first_index(
            url_of(name, site, path),
            '/',
            host_start(url_of(name, site, path)),
        ) is None,
{
    reveal_strlit("://");
    let url = url_of(name, site, path);
    let at = name.len() as int;
    assert("://"@ =~= seq![':', '/', '/']);
    assert(url.subrange(at, at + 3) =~= "://"@);
    assert forall|j: int| 0 <= j < at implies !occurs_at(url, "://"@, j) by {
        if occurs_at(url, "://"@, j) {
            let seen = url.subrange(j, j + 3);
            assert(seen[0] == url[j] && seen[1] == url[j + 1] && seen[2] == url[j + 2]);
            assert(url[at] == ':');
            if j + 2 < at {
                assert(name[j] == ':' && name[j + 1] == '/' && name[j + 2] == '/');
            }
        }
    }
    crate::search::lemma_first_match_found(url, "://"@, 0, at);
    assert(url.subrange(0, at) =~= name);
    let from = at + 3;
    let end = from + site.len();
    assert forall|j: int| from <= j < end implies url[j] != '/' by {
        assert(url[j] == site[j - from]);
    }
    if path.len() > 0 {
        assert(url[end] == path[0]);
        crate::search::lemma_first_index_found(url, '/', from, end);
    } else {
        crate::search::lemma_first_index_absent(url, '/', from);
    }
    assert(url.subrange(from, end) =~= site);
}

/// Whether a text begins with the given characters, one by one.
pub open spec fn begins(text: Seq<char>, start: Seq<char>) -> bool {
    start.len() <= text.len() && forall|i: int| 0 <= i < start.len() ==> #[trigger] start[i] == text[i]
}

proof fn lemma_begins(text: Seq<char>, start: Seq<char>)
    ensures
        begins(text, start) == crate::search::starts_with(text, start),
{
    if start.len() <= text.len() {
        let front = text.subrange(0, start.len() as int);
        if begins(text, start) {
            assert(front =~= start);
        }
        if front == start {
            assert forall|i: int| 0 <= i < start.len() implies #[trigger] start[i] == text[i] by {
                assert(front[i] == text[i]);
            }
        }
    }
}

/// Whether a reference is written with the scheme `http` or `https`.
pub open spec fn names_web_scheme(reference: Seq<char>) -> bool {
    begins(reference, seq!['h', 't', 't', 'p', ':', '/', '/']) || begins(
        reference,
        seq!['h', 't', 't', 'p', 's', ':', '/', '/'],
    )
}

proof fn lemma_kinds(reference: Seq<char>)
    ensures
        is_absolute(reference) == names_web_scheme(reference),
        crate::search::starts_with(reference, "//"@) == begins(reference, seq!['/', '/']),
        crate::search::starts_with(reference, "/"@) == begins(reference, seq!['/']),
{
    reveal_strlit("http://");
    reveal_strlit("https://");
    reveal_strlit("//");
    reveal_strlit("/");
    assert("http://"@ =~= seq!['h', 't', 't', 'p', ':', '/', '/']);
    assert("https://"@ =~= seq!['h', 't', 't', 'p', 's', ':', '/', '/']);
    assert("//"@ =~= seq!['/', '/']);
    assert("/"@ =~= seq!['/']);
    lemma_begins(reference, "http://"@);
    lemma_begins(reference, "https://"@);
    lemma_begins(reference, "//"@);
    lemma_begins(reference, "/"@);
}

/// A reference with the scheme `http` or `https` stands for itself on every
/// page.
pub proof fn web_reference_stands_for_itself(base: Seq<char>, reference: Seq<char>)
    requires
        names_web_scheme(reference),
    ensures
        resolved(base, reference) == reference,
{
    lemma_kinds(reference);
}

/// On a page whose URL holds no `://`, every reference stands for itself and
/// there is no default location.
pub proof fn page_without_scheme_resolves_nothing(base: Seq<char>, reference: Seq<char>)
    requires
        forall|i: int|
            0 <= i && i + 2 < base.len() ==> !(#[trigger] base[i] == ':' && base[i + 1] == '/'
                && base[i + 2] == '/'),
    ensures
        resolved(base, reference) == reference,
        root_favicon(base) is None,
{
    reveal_strlit("://");
    assert forall|j: int| 0 <= j implies !occurs_at(base, "://"@, j) by {
        if occurs_at(base, "://"@, j) {
            let seen = base.subrange(j, j + 3);
            assert(seen[0] == base[j] && seen[1] == base[j + 1] && seen[2] == base[j + 2]);
        }
    }
    crate::search::lemma_first_match_absent(base, "://"@, 0);
}

/// `//rest` stands for the page's scheme, a colon and the whole reference.
pub proof fn protocol_relative_reference_gets_the_scheme(
    name: Seq<char>,
    site: Seq<char>,
    path: Seq<char>,
    reference: Seq<char>,
)
    requires
        are_url_parts(name, site, path),
        begins(reference, seq!['/', '/']),
    ensures
        resolved(url_of(name, site, path), reference) == name + seq![':'] + reference,
{
    reveal_strlit(":");
    assert(":"@ =~= seq![':']);
    lemma_parts(name, site, path);
    lemma_kinds(reference);
    assert(seq!['/', '/'][0] == reference[0]);
    assert(reference[0] != seq!['h', 't', 't', 'p', ':', '/', '/'][0]);
    assert(reference[0] != seq!['h', 't', 't', 'p', 's', ':', '/', '/'][0]);
}

/// `/rest`, where no second slash follows, stands for the page's scheme and
/// host and the whole reference: nothing of it is cut, and nothing is added.
pub proof fn root_reference_follows_the_host(
    name: Seq<char>,
    site: Seq<char>,
    path: Seq<char>,
    reference: Seq<char>,
)
    requires
        are_url_parts(name, site, path),
        begins(reference, seq!['/']),
        !begins(reference, seq!['/', '/']),
    ensures
        resolved(url_of(name, site, path), reference) == name + seq![':', '/', '/'] + site
            + reference,
{
    lemma_parts(name, site, path);
    lemma_kinds(reference);
    assert(seq!['/'][0] == reference[0]);
    assert(reference[0] != seq!['h', 't', 't', 'p', ':', '/', '/'][0]);
    assert(reference[0] != seq!['h', 't', 't', 'p', 's', ':', '/', '/'][0]);
}

/// Any other reference takes the place of what stands behind the last slash of
/// the page's path: `file` has no slash, and the folder ends in one.
pub proof fn plain_reference_replaces_the_file(
    name: Seq<char>,
    site: Seq<char>,
    folder: Seq<char>,
    file: Seq<char>,
    reference: Seq<char>,
)
    requires
        are_url_parts(name, site, folder + file),
        folder.len() > 0,
        folder.last() == '/',
        forall|i: int| 0 <= i < file.len() ==> #[trigger] file[i] != '/',
        !names_web_scheme(reference),
        !begins(reference, seq!['/']),
    ensures
        resolved(url_of(name, site, folder + file), reference) == name + seq![':', '/', '/'] + site
            + folder + reference,
{
    let path = folder + file;
    let url = url_of(name, site, path);
    lemma_parts(name, site, path);
    lemma_kinds(reference);
    if begins(reference, seq!['/', '/']) {
        assert(seq!['/', '/'][0] == reference[0]);
        assert(begins(reference, seq!['/']));
    }
    let start = name.len() + 3 + site.len();
    let last = start + folder.len() - 1;
    crate::search::last_index_is_greatest(url, '/');
    assert(url[last] == folder.last());
    assert forall|j: int| last < j < url.len() implies url[j] != '/' by {
        assert(url[j] == file[j - last - 1]);
    }
    assert(last_index(url, '/') == Some(last));
    assert(url.subrange(start as int, last + 1) =~= folder);
    assert(directory(url) == folder);
}

/// On a page without a path, any other reference stands in the root folder.
pub proof fn plain_reference_stands_in_the_root(
    name: Seq<char>,
    site: Seq<char>,
    reference: Seq<char>,
)
    requires
        are_url_parts(name, site, Seq::empty()),
        !names_web_scheme(reference),
        !begins(reference, seq!['/']),
    ensures
        resolved(name + seq![':', '/', '/'] + site, reference) == name + seq![':', '/', '/'] + site
            + seq!['/'] + reference,
{
    reveal_strlit("/");
    assert("/"@ =~= seq!['/']);
    let url = url_of(name, site, Seq::empty());
    assert(url =~= name + seq![':', '/', '/'] + site);
    lemma_parts(name, site, Seq::empty());
    lemma_kinds(reference);
    if begins(reference, seq!['/', '/']) {
        assert(seq!['/', '/'][0] == reference[0]);
        assert(begins(reference, seq!['/']));
    }
    assert(directory(url) == seq!['/']);
}

/// The default location is `favicon.ico` in the root of the page's site.
pub proof fn default_location_is_in_the_root(name: Seq<char>, site: Seq<char>, path: Seq<char>)
    requires
        are_url_parts(name, site, path),
    ensures
        root_favicon(url_of(name, site, path)) == Some(
            name + seq![':', '/', '/'] + site + seq![
                '/',
                'f',
                'a',
                'v',
                'i',
                'c',
                'o',
                'n',
                '.',
                'i',
                'c',
                'o',
            ],
        ),
{
    reveal_strlit("/favicon.ico");
    assert("/favicon.ico"@ =~= seq!['/', 'f', 'a', 'v', 'i', 'c', 'o', 'n', '.', 'i', 'c', 'o']);
    lemma_parts(name, site, path);
}

} // verus!
