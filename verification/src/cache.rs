//! The page cache: where a page and what is known of it are kept on disk.
//!
//! A page is kept under the SHA-256 hash of its URL, in a directory that is named by the
//! first sixteen digits of the hash: `./cache/<sixteen digits>/<all digits>.html`. The
//! split keeps any one directory from holding too many files. What is known of the page
//! lies beside it in a `.json` file.
use sha2::Digest;
use sha2::Sha256;
use vstd::prelude::*;

use crate::clock::Timestamp;
use crate::text::chars_of;
use crate::text::ends_with;
use crate::text::text_of;

verus! {

/// What is known of a cached page.
#[derive(Debug)]
pub struct CacheMeta {
    pub url: String,
    pub title: String,
    pub fetched_at: Timestamp,
    pub content_length: usize,
}

/// What is known of a cached page, as a mathematical value.
#[verifier::ext_equal]
pub struct MetaModel {
    pub url: Seq<char>,
    pub title: Seq<char>,
    pub fetched_at: Timestamp,
    pub content_length: nat,
}

impl View for CacheMeta {
    type V = MetaModel;

    open spec fn view(&self) -> MetaModel {
        MetaModel {
            url: self.url@,
            title: self.title@,
            fetched_at: self.fetched_at,
            content_length: self.content_length as nat,
        }
    }
}

/// What a file of the cache holds.
pub enum FileModel {
    Page(Seq<char>),
    Meta(MetaModel),
}

/// The files of a disk under their paths.
pub type DiskModel = Map<Seq<char>, FileModel>;

/// The page in the file at `path`.
pub open spec fn page_at(disk: DiskModel, path: Seq<char>) -> Option<Seq<char>> {
    if disk.contains_key(path) {
        match disk[path] {
            FileModel::Page(html) => Some(html),
            FileModel::Meta(_) => None,
        }
    } else {
        None
    }
}

/// What is known of a page by the file at `path`.
pub open spec fn meta_at(disk: DiskModel, path: Seq<char>) -> Option<MetaModel> {
    if disk.contains_key(path) {
        match disk[path] {
            FileModel::Page(_) => None,
            FileModel::Meta(meta) => Some(meta),
        }
    } else {
        None
    }
}

/// What an optional description of a page says.
pub open spec fn opt_meta(meta: Option<CacheMeta>) -> Option<MetaModel> {
    match meta {
        Some(found) => Some(found@),
        None => None,
    }
}

/// `on_disk` says which files there are.
pub open spec fn sees<F: Fn(&str) -> bool>(on_disk: F, disk: DiskModel) -> bool {
    forall|path: &str, found: bool| #[trigger]
        call_ensures(on_disk, (path,), found) ==> found == disk.contains_key(path@)
}

/// `read` gives the pages in the files.
pub open spec fn reads_pages<F: Fn(&str) -> Option<String>>(read: F, disk: DiskModel) -> bool {
    forall|path: &str, html: Option<String>| #[trigger]
        call_ensures(read, (path,), html) ==> crate::web::opt_text(html) == page_at(disk, path@)
}

/// `read` gives what the files say of pages.
pub open spec fn reads_metas<F: Fn(&str) -> Option<CacheMeta>>(read: F, disk: DiskModel) -> bool {
    forall|path: &str, meta: Option<CacheMeta>| #[trigger]
        call_ensures(read, (path,), meta) ==> opt_meta(meta) == meta_at(disk, path@)
}

/// What has to be written to put a page into the cache.
#[derive(Debug)]
pub struct StorePlan {
    /// The directory that has to be there first.
    pub dir: String,
    /// Where the page goes.
    pub html_path: String,
    /// Where `meta` goes.
    pub meta_path: String,
    pub meta: CacheMeta,
}

/// The page cache.
pub struct PageCache {
    base: String,
}

/// What `Sha256` makes of a message.
pub uninterp spec fn sha256_digest(message: Seq<u8>) -> [u8; 32];

/// `Sha256` over the whole message: a digest of 32 bytes that depends on the message
/// alone.
#[verifier::external_body]
fn sha256(message: &[u8]) -> (digest: [u8; 32])
    ensures
        digest@ == sha256_digest(message@)@,
{
    let mut hasher = Sha256::new();
    hasher.update(message);
    hasher.finalize().into()
}

/// The hexadecimal digit of a number below sixteen, in lower case.
pub open spec fn hex_digit(n: int) -> char {
    if n < 10 {
        (('0' as u32) + n) as char
    } else {
        (('a' as u32) + n - 10) as char
    }
}

/// Two hexadecimal digits for each byte, the higher one first.
pub open spec fn hex_digits(bytes: Seq<u8>) -> Seq<char> {
    Seq::new(
        bytes.len() * 2,
        |i: int|
            if i % 2 == 0 {
                hex_digit(bytes[i / 2] as int / 16)
            } else {
                hex_digit(bytes[i / 2] as int % 16)
            },
    )
}

/// `hex::encode`: two digits in lower case for each byte.
#[verifier::external_body]
fn hex_encode(bytes: &[u8]) -> (digits: String)
    ensures
        digits@ == hex_digits(bytes@),
{
    hex::encode(bytes)
}

/// The name under which the page of a URL is kept.
pub open spec fn hash_of(url: Seq<char>) -> Seq<char> {
    hex_digits(sha256_digest(vstd::utf8::encode_utf8(url))@)
}

/// The directory below `base` for a page with this hash.
pub open spec fn dir_of(base: Seq<char>, hash: Seq<char>) -> Seq<char> {
    base + "/"@ + hash.subrange(0, 16)
}

/// Where below `base` the page with this hash lies.
pub open spec fn html_path_of(base: Seq<char>, hash: Seq<char>) -> Seq<char> {
    dir_of(base, hash) + "/"@ + hash + ".html"@
}

/// Where below `base` that lies which is known of the page with this hash.
pub open spec fn meta_path_of(base: Seq<char>, hash: Seq<char>) -> Seq<char> {
    dir_of(base, hash) + "/"@ + hash + ".json"@
}

/// The file name ends in `.html` and has something in front of that.
pub open spec fn is_html_name(name: Seq<char>) -> bool {
    name.len() > 5 && crate::text::ends(name, ".html"@)
}

/// The sizes of the files with an HTML name, added up.
pub open spec fn html_bytes(files: Seq<(String, u64)>) -> nat
    decreases files.len(),
{
    if files.len() == 0 {
        0
    } else {
        html_bytes(files.drop_last()) + if is_html_name(files.last().0@) {
            files.last().1 as nat
        } else {
            0nat
        }
    }
}

/// The number of files with an HTML name.
pub open spec fn html_files(files: Seq<(String, u64)>) -> nat
    decreases files.len(),
{
    if files.len() == 0 {
        0
    } else {
        html_files(files.drop_last()) + if is_html_name(files.last().0@) {
            1nat
        } else {
            0nat
        }
    }
}

/// The page of a URL on a disk.
pub open spec fn html_on(disk: DiskModel, base: Seq<char>, url: Seq<char>) -> Option<Seq<char>> {
    page_at(disk, html_path_of(base, hash_of(url)))
}

/// What is known of the page of a URL on a disk.
pub open spec fn meta_on(disk: DiskModel, base: Seq<char>, url: Seq<char>) -> Option<MetaModel> {
    meta_at(disk, meta_path_of(base, hash_of(url)))
}

/// The page of a URL is on a disk.
pub open spec fn contains_on(disk: DiskModel, base: Seq<char>, url: Seq<char>) -> bool {
    disk.contains_key(html_path_of(base, hash_of(url)))
}

/// What is known of a page that is put into the cache.
pub open spec fn meta_of(
    url: Seq<char>,
    title: Seq<char>,
    html: Seq<char>,
    now: Timestamp,
) -> MetaModel {
    MetaModel {
        url,
        title,
        fetched_at: now,
        content_length: vstd::utf8::encode_utf8(html).len(),
    }
}

/// A disk after a page has been put into the cache.
pub open spec fn after_store(
    disk: DiskModel,
    base: Seq<char>,
    url: Seq<char>,
    title: Seq<char>,
    html: Seq<char>,
    now: Timestamp,
) -> DiskModel {
    disk.insert(html_path_of(base, hash_of(url)), FileModel::Page(html)).insert(
        meta_path_of(base, hash_of(url)),
        FileModel::Meta(meta_of(url, title, html, now)),
    )
}

/// A disk after a plan has been carried out for the page `html`.
pub open spec fn carried_out(disk: DiskModel, plan: StorePlan, html: Seq<char>) -> DiskModel {
    disk.insert(plan.html_path@, FileModel::Page(html)).insert(
        plan.meta_path@,
        FileModel::Meta(plan.meta@),
    )
}

impl PageCache {
    /// The directory below which everything is kept.
    pub closed spec fn base(&self) -> Seq<char> {
        self.base@
    }

    /// A cache below `./cache`.
    pub fn new() -> (cache: PageCache)
        ensures
            cache.base() == "./cache"@,
    {
        PageCache { base: "./cache".to_owned() }
    }

    /// The SHA-256 hash of a URL in hexadecimal digits.
    pub fn url_hash(url: &str) -> (hash: String)
        ensures
            hash@ == hash_of(url@),
            hash@.len() == 64,
    {
        let digest = sha256(url.as_bytes());
        hex_encode(digest.as_slice())
    }

    /// The directory, the page's file and the file of what is known of it, for a URL.
    pub fn paths(&self, url: &str) -> (found: (String, String, String))
        ensures
            found.0@ == dir_of(self.base(), hash_of(url@)),
            found.1@ == html_path_of(self.base(), hash_of(url@)),
            found.2@ == meta_path_of(self.base(), hash_of(url@)),
    {
        let hash = Self::url_hash(url);
        self.paths_under(hash.as_str())
    }

    /// The directory, the page's file and the file of what is known of it, for a hash.
    pub fn paths_under(&self, hash: &str) -> (found: (String, String, String))
        requires
            hash@.len() >= 16,
        ensures
            found.0@ == dir_of(self.base(), hash@),
            found.1@ == html_path_of(self.base(), hash@),
            found.2@ == meta_path_of(self.base(), hash@),
    {
        let digits = chars_of(hash);
        let shard = text_of(vstd::slice::slice_subrange(digits.as_slice(), 0, 16));
        let mut dir = self.base.clone();
        dir.append("/");
        dir.append(shard.as_str());
        let mut html = dir.clone();
        html.append("/");
        html.append(hash);
        html.append(".html");
        let mut meta = dir.clone();
        meta.append("/");
        meta.append(hash);
        meta.append(".json");
        (dir, html, meta)
    }

    /// Whether the page of a URL is in the cache: what `on_disk` says of its file.
    pub fn contains<F: Fn(&str) -> bool>(&self, url: &str, on_disk: F) -> (found: bool)
        requires
            forall|path: &str| call_requires(on_disk, (path,)),
        ensures
            exists|path: &str|
                path@ == html_path_of(self.base(), hash_of(url@)) && #[trigger] call_ensures(
                    on_disk,
                    (path,),
                    found,
                ),
            forall|disk: DiskModel| #[trigger]
                sees(on_disk, disk) ==> found == contains_on(disk, self.base(), url@),
    {
        let paths = self.paths(url);
        on_disk(paths.1.as_str())
    }

    /// The cached page of a URL: what `read` gives for its file.
    pub fn get_html<F: Fn(&str) -> Option<String>>(&self, url: &str, read: F) -> (html: Option<
        String,
    >)
        requires
            forall|path: &str| call_requires(read, (path,)),
        ensures
            exists|path: &str|
                path@ == html_path_of(self.base(), hash_of(url@)) && #[trigger] call_ensures(
                    read,
                    (path,),
                    html,
                ),
            forall|disk: DiskModel| #[trigger]
                reads_pages(read, disk) ==> crate::web::opt_text(html) == html_on(
                    disk,
                    self.base(),
                    url@,
                ),
    {
        let paths = self.paths(url);
        read(paths.1.as_str())
    }

    /// What is known of the cached page of a URL: what `read` gives for its file.
    pub fn get_meta<F: Fn(&str) -> Option<CacheMeta>>(&self, url: &str, read: F) -> (meta: Option<
        CacheMeta,
    >)
        requires
            forall|path: &str| call_requires(read, (path,)),
        ensures
            exists|path: &str|
                path@ == meta_path_of(self.base(), hash_of(url@)) && #[trigger] call_ensures(
                    read,
                    (path,),
                    meta,
                ),
            forall|disk: DiskModel| #[trigger]
                reads_metas(read, disk) ==> opt_meta(meta) == meta_on(disk, self.base(), url@),
    {
        let paths = self.paths(url);
        read(paths.2.as_str())
    }

    /// What has to be written, and where, to put the page of a URL into the cache.
    pub fn store(&self, url: &str, title: &str, clean_html: &str, now: Timestamp) -> (plan:
        StorePlan)
        ensures
            plan.dir@ == dir_of(self.base(), hash_of(url@)),
            plan.html_path@ == html_path_of(self.base(), hash_of(url@)),
            plan.meta_path@ == meta_path_of(self.base(), hash_of(url@)),
            plan.meta@ == meta_of(url@, title@, clean_html@, now),
            forall|disk: DiskModel| #[trigger]
                carried_out(disk, plan, clean_html@) == after_store(
                    disk,
                    self.base(),
                    url@,
                    title@,
                    clean_html@,
                    now,
                ),
    {
        let (dir, html_path, meta_path) = self.paths(url);
        StorePlan {
            dir,
            html_path,
            meta_path,
            meta: CacheMeta {
                url: url.to_owned(),
                title: title.to_owned(),
                fetched_at: now,
                content_length: clean_html.as_bytes().len(),
            },
        }
    }

    /// How many pages lie among the files, and how many bytes they take, up to the
    /// greatest number that 64 bits hold. Each file is given by its name and size.
    pub fn stats(files: &Vec<(String, u64)>) -> (found: (usize, u64))
        ensures
            found.0 == html_files(files@),
            found.1 == crate::interest::capped(html_bytes(files@) as int),
    {
        let mut count: usize = 0;
        let mut bytes: u64 = 0;
        for i in 0..files.len()
            invariant
                count <= i,
                count == html_files(files@.take(i as int)),
                bytes == crate::interest::capped(html_bytes(files@.take(i as int)) as int),
        {
            assert(files@.take(i + 1).drop_last() == files@.take(i as int));
            assert(files@.take(i + 1).last() == files@[i as int]);
            let name = chars_of(files[i].0.as_str());
            if name.len() > 5 && ends_with(name.as_slice(), ".html") {
                count = count + 1;
                bytes = bytes.saturating_add(files[i].1);
            }
        }
        assert(files@.take(files@.len() as int) == files@);
        (count, bytes)
    }
}

/// A page's file is never the file of what is known of a page.
pub proof fn paths_differ(base: Seq<char>, a: Seq<char>, b: Seq<char>)
    ensures
        html_path_of(base, a) != meta_path_of(base, b),
{
    reveal_strlit(".html");
    reveal_strlit(".json");
    let html = html_path_of(base, a);
    let meta = meta_path_of(base, b);
    assert(html.last() == 'l');
    assert(meta.last() == 'n');
}

/// Pages with different hashes do not overwrite each other.
pub proof fn different_pages_lie_apart(base: Seq<char>, a: Seq<char>, b: Seq<char>)
    requires
        a.len() == 64,
        b.len() == 64,
        a != b,
    ensures
        html_path_of(base, a) != html_path_of(base, b),
        meta_path_of(base, a) != meta_path_of(base, b),
{
    let front: int = dir_of(base, a).len() + "/"@.len() as int;
    assert(dir_of(base, a).len() == dir_of(base, b).len());
    assert(html_path_of(base, a).subrange(front, front + 64) == a);
    assert(html_path_of(base, b).subrange(front, front + 64) == b);
    assert(meta_path_of(base, a).subrange(front, front + 64) == a);
    assert(meta_path_of(base, b).subrange(front, front + 64) == b);
}

/// What is put into the cache for a URL is what is found there for it, whatever was there
/// before: the page, and what is known of it.
pub proof fn stored_page_is_found(
    disk: DiskModel,
    base: Seq<char>,
    url: Seq<char>,
    title: Seq<char>,
    html: Seq<char>,
    now: Timestamp,
)
    ensures
        ({
            let after = after_store(disk, base, url, title, html, now);
            &&& html_on(after, base, url) == Some(html)
            &&& meta_on(after, base, url) == Some(meta_of(url, title, html, now))
            &&& contains_on(after, base, url)
        }),
{
    paths_differ(base, hash_of(url), hash_of(url));
}

/// What is done to the files of one page leaves every page with another hash alone,
/// whether or not all of it succeeds.
pub proof fn other_pages_are_left_alone(
    before: DiskModel,
    after: DiskModel,
    base: Seq<char>,
    url: Seq<char>,
    other: Seq<char>,
)
    requires
        hash_of(url) != hash_of(other),
        forall|path: Seq<char>|
            path != html_path_of(base, hash_of(url)) && path != meta_path_of(base, hash_of(url))
                ==> (#[trigger] before.contains_key(path) <==> after.contains_key(path)) && (
            before.contains_key(path) ==> before[path] == after[path]),
    ensures
        html_on(after, base, other) == html_on(before, base, other),
        meta_on(after, base, other) == meta_on(before, base, other),
        contains_on(after, base, other) == contains_on(before, base, other),
{
    different_pages_lie_apart(base, hash_of(url), hash_of(other));
    paths_differ(base, hash_of(url), hash_of(other));
    paths_differ(base, hash_of(other), hash_of(url));
    assert(before.contains_key(html_path_of(base, hash_of(other))) <==> after.contains_key(
        html_path_of(base, hash_of(other)),
    ));
    assert(before.contains_key(meta_path_of(base, hash_of(other))) <==> after.contains_key(
        meta_path_of(base, hash_of(other)),
    ));
}

/// Storing a page changes no file of a page with another hash. In a cache that was empty,
/// the stored page is there and no other.
pub proof fn storing_touches_one_page(
    disk: DiskModel,
    base: Seq<char>,
    url: Seq<char>,
    title: Seq<char>,
    html: Seq<char>,
    now: Timestamp,
    other: Seq<char>,
)
    requires
        hash_of(url) != hash_of(other),
    ensures
        ({
            let after = after_store(disk, base, url, title, html, now);
            &&& html_on(after, base, other) == html_on(disk, base, other)
            &&& meta_on(after, base, other) == meta_on(disk, base, other)
            &&& contains_on(after, base, other) == contains_on(disk, base, other)
            &&& disk == Map::<Seq<char>, FileModel>::empty() ==> !contains_on(after, base, other)
        }),
{
    other_pages_are_left_alone(
        disk,
        after_store(disk, base, url, title, html, now),
        base,
        url,
        other,
    );
}

/// A page that is found is there.
pub proof fn found_pages_are_there(disk: DiskModel, base: Seq<char>, url: Seq<char>)
    ensures
        html_on(disk, base, url) is Some ==> contains_on(disk, base, url),
{
}

/// A page that is put into the cache.
pub struct StoreCall {
    pub url: Seq<char>,
    pub title: Seq<char>,
    pub html: Seq<char>,
    pub now: Timestamp,
}

/// The disk after these pages have been put into an empty cache, one after the other.
pub open spec fn disk_after(base: Seq<char>, stores: Seq<StoreCall>) -> DiskModel
    decreases stores.len(),
{
    if stores.len() == 0 {
        Map::empty()
    } else {
        let last = stores.last();
        after_store(
            disk_after(base, stores.drop_last()),
            base,
            last.url,
            last.title,
            last.html,
            last.now,
        )
    }
}

/// A hash and the page that is kept under it.
pub type KeptPage = (Seq<char>, Seq<char>);

/// Where the page with this hash stands in a list.
pub open spec fn kept_at(pages: Seq<KeptPage>, hash: Seq<char>) -> Option<int>
    decreases pages.len(),
{
    if pages.len() == 0 {
        None
    } else if pages.last().0 == hash {
        Some(pages.len() - 1)
    } else {
        kept_at(pages.drop_last(), hash)
    }
}

/// The pages that are in the cache after these have been put in: for each hash the latest.
pub open spec fn kept_pages(stores: Seq<StoreCall>) -> Seq<KeptPage>
    decreases stores.len(),
{
    if stores.len() == 0 {
        Seq::empty()
    } else {
        let before = kept_pages(stores.drop_last());
        let page = (hash_of(stores.last().url), stores.last().html);
        match kept_at(before, page.0) {
            Some(at) => before.update(at, page),
            None => before.push(page),
        }
    }
}

/// The bytes of the pages, added up.
pub open spec fn kept_bytes(pages: Seq<KeptPage>) -> nat
    decreases pages.len(),
{
    if pages.len() == 0 {
        0
    } else {
        kept_bytes(pages.drop_last()) + vstd::utf8::encode_utf8(pages.last().1).len()
    }
}

/// The paths of the files of the pages.
spec fn paths_of_pages(base: Seq<char>, pages: Seq<KeptPage>) -> Seq<Seq<char>>
    decreases pages.len(),
{
    if pages.len() == 0 {
        Seq::empty()
    } else {
        paths_of_pages(base, pages.drop_last()).push(html_path_of(base, pages.last().0)).push(
            meta_path_of(base, pages.last().0),
        )
    }
}

/// The part of a path behind its last slash.
pub open spec fn file_name(path: Seq<char>) -> Seq<char>
    decreases path.len(),
{
    if path.len() == 0 || path.last() == '/' {
        Seq::empty()
    } else {
        file_name(path.drop_last()).push(path.last())
    }
}

/// `files` names each file of the disk once, in some order, and gives the bytes of each
/// page.
pub open spec fn lists_disk(files: Seq<(String, u64)>, disk: DiskModel) -> bool {
    exists|paths: Seq<Seq<char>>| #[trigger] lists_paths(files, paths, disk)
}

/// `files` names the files at `paths`, which are all of the disk, each once.
pub open spec fn lists_paths(
    files: Seq<(String, u64)>,
    paths: Seq<Seq<char>>,
    disk: DiskModel,
) -> bool {
    &&& paths.len() == files.len()
    &&& paths.no_duplicates()
    &&& forall|path: Seq<char>| paths.contains(path) <==> #[trigger] disk.contains_key(path)
    &&& forall|i: int|
        0 <= i < files.len() ==> (#[trigger] files[i]).0@ == file_name(paths[i]) && (page_at(
            disk,
            paths[i],
        ) matches Some(html) ==> files[i].1 == vstd::utf8::encode_utf8(html).len())
}

/// The numbers that `count` gives for the paths, added up.
spec fn sum_over(paths: Seq<Seq<char>>, count: spec_fn(Seq<char>) -> nat) -> nat
    decreases paths.len(),
{
    if paths.len() == 0 {
        0
    } else {
        sum_over(paths.drop_last(), count) + count(paths.last())
    }
}

proof fn sum_without_one(paths: Seq<Seq<char>>, count: spec_fn(Seq<char>) -> nat, i: int)
    requires
        0 <= i < paths.len(),
    ensures
        sum_over(paths, count) == sum_over(paths.remove(i), count) + count(paths[i]),
    decreases paths.len(),
{
    let rest = paths.remove(i);
    if i < paths.len() - 1 {
        sum_without_one(paths.drop_last(), count, i);
        assert(rest.drop_last() == paths.drop_last().remove(i));
        assert(rest.last() == paths.last());
    } else {
        assert(rest == paths.drop_last());
    }
}

proof fn sums_agree(
    a: Seq<Seq<char>>,
    b: Seq<Seq<char>>,
    count: spec_fn(Seq<char>) -> nat,
)
    requires
        a.no_duplicates(),
        b.no_duplicates(),
        forall|path: Seq<char>| a.contains(path) <==> b.contains(path),
    ensures
        sum_over(a, count) == sum_over(b, count),
    decreases b.len(),
{
    if b.len() == 0 {
        if a.len() > 0 {
            assert(a.contains(a[0]));
            assert(b.contains(a[0]));
        }
    } else {
        let last = b.last();
        assert(b[b.len() - 1] == last);
        assert(b.contains(last));
        let i = choose|i: int| 0 <= i < a.len() && a[i] == last;
        let rest = a.remove(i);
        let front = b.drop_last();
        sum_without_one(a, count, i);
        assert forall|path: Seq<char>| rest.contains(path) <==> front.contains(path) by {
            if rest.contains(path) {
                let k = choose|k: int| 0 <= k < rest.len() && rest[k] == path;
                let p = if k < i {
                    k
                } else {
                    k + 1
                };
                assert(a[p] == path && p != i);
                assert(b.contains(path));
                let q = choose|q: int| 0 <= q < b.len() && b[q] == path;
                assert(path != last);
                assert(front[q] == path);
            }
            if front.contains(path) {
                let q = choose|q: int| 0 <= q < front.len() && front[q] == path;
                assert(b[q] == path);
                assert(path != last);
                assert(a.contains(path));
                let p = choose|p: int| 0 <= p < a.len() && a[p] == path;
                if p < i {
                    assert(rest[p] == path);
                } else {
                    assert(rest[p - 1] == path);
                }
            }
        }
        sums_agree(rest, front, count);
    }
}

proof fn kept_at_is_sound(pages: Seq<KeptPage>, hash: Seq<char>)
    ensures
        match kept_at(pages, hash) {
            Some(at) => 0 <= at < pages.len() && pages[at].0 == hash,
            None => forall|i: int| 0 <= i < pages.len() ==> (#[trigger] pages[i]).0 != hash,
        },
    decreases pages.len(),
{
    if pages.len() > 0 && pages.last().0 != hash {
        kept_at_is_sound(pages.drop_last(), hash);
        if kept_at(pages, hash) is None {
            assert forall|i: int| 0 <= i < pages.len() implies (#[trigger] pages[i]).0 != hash by {
                if i < pages.len() - 1 {
                    assert(pages.drop_last()[i].0 != hash);
                }
            }
        }
    }
}

/// The hashes are those of URLs, and no two pages have the same.
spec fn well_kept(pages: Seq<KeptPage>) -> bool {
    &&& forall|i: int| 0 <= i < pages.len() ==> is_hash((#[trigger] pages[i]).0)
    &&& forall|i: int, j: int|
        0 <= i < j < pages.len() ==> (#[trigger] pages[i]).0 != (#[trigger] pages[j]).0
}

/// Sixty-four characters, none of them a slash.
spec fn is_hash(hash: Seq<char>) -> bool {
    hash.len() == 64 && forall|i: int| 0 <= i < hash.len() ==> #[trigger] hash[i] != '/'
}

proof fn hashes_are_hashes(url: Seq<char>)
    ensures
        is_hash(hash_of(url)),
{
    let digest = sha256_digest(vstd::utf8::encode_utf8(url))@;
    let hash = hash_of(url);
    assert(digest.len() == 32);
    assert forall|i: int| 0 <= i < hash.len() implies #[trigger] hash[i] != '/' by {
        let byte = digest[i / 2] as int;
        assert(0 <= byte / 16 < 16 && 0 <= byte % 16 < 16);
    }
}

/// The disk holds the pages, each with what is known of it, and nothing else.
spec fn holds(disk: DiskModel, base: Seq<char>, pages: Seq<KeptPage>) -> bool {
    &&& forall|path: Seq<char>| #[trigger]
        disk.contains_key(path) <==> paths_of_pages(base, pages).contains(path)
    &&& forall|i: int|
        0 <= i < pages.len() ==> page_at(disk, html_path_of(base, (#[trigger] pages[i]).0)) == Some(
            pages[i].1,
        )
}

proof fn paths_are_listed(base: Seq<char>, pages: Seq<KeptPage>, path: Seq<char>)
    ensures
        paths_of_pages(base, pages).contains(path) <==> exists|i: int|
            0 <= i < pages.len() && (path == html_path_of(base, (#[trigger] pages[i]).0) || path
                == meta_path_of(base, pages[i].0)),
    decreases pages.len(),
{
    let all = paths_of_pages(base, pages);
    if pages.len() > 0 {
        let front = pages.drop_last();
        paths_are_listed(base, front, path);
        let before = paths_of_pages(base, front);
        let html = html_path_of(base, pages.last().0);
        let meta = meta_path_of(base, pages.last().0);
        assert(all == before.push(html).push(meta));
        assert(pages[pages.len() - 1] == pages.last());
        if all.contains(path) {
            let k = choose|k: int| 0 <= k < all.len() && all[k] == path;
            if k < before.len() {
                assert(before[k] == path);
                let i = choose|i: int|
                    0 <= i < front.len() && (path == html_path_of(base, (#[trigger] front[i]).0)
                        || path == meta_path_of(base, front[i].0));
                assert(pages[i] == front[i]);
            }
        }
        if exists|i: int|
            0 <= i < pages.len() && (path == html_path_of(base, (#[trigger] pages[i]).0) || path
                == meta_path_of(base, pages[i].0)) {
            let i = choose|i: int|
                0 <= i < pages.len() && (path == html_path_of(base, (#[trigger] pages[i]).0)
                    || path == meta_path_of(base, pages[i].0));
            if i < front.len() {
                assert(front[i] == pages[i]);
                let k = choose|k: int| 0 <= k < before.len() && before[k] == path;
                assert(all[k] == path);
            } else {
                assert(all[before.len() as int] == html);
                assert(all[before.len() + 1int] == meta);
            }
        }
    }
}

proof fn paths_are_distinct(base: Seq<char>, pages: Seq<KeptPage>)
    requires
        well_kept(pages),
    ensures
        paths_of_pages(base, pages).no_duplicates(),
    decreases pages.len(),
{
    if pages.len() > 0 {
        let front = pages.drop_last();
        let last = pages[pages.len() - 1];
        assert forall|i: int| 0 <= i < front.len() implies is_hash((#[trigger] front[i]).0) by {
            assert(is_hash(pages[i].0));
        }
        assert forall|i: int, j: int| 0 <= i < j < front.len() implies (#[trigger] front[i]).0 != (
        #[trigger] front[j]).0 by {
            assert(pages[i].0 != pages[j].0);
        }
        paths_are_distinct(base, front);
        let before = paths_of_pages(base, front);
        let html = html_path_of(base, last.0);
        let meta = meta_path_of(base, last.0);
        assert(is_hash(last.0));
        paths_differ(base, last.0, last.0);
        assert forall|i: int| 0 <= i < front.len() implies html_path_of(
            base,
            (#[trigger] front[i]).0,
        ) != html && meta_path_of(base, front[i].0) != html && html_path_of(base, front[i].0)
            != meta && meta_path_of(base, front[i].0) != meta by {
            assert(pages[i].0 != last.0);
            assert(is_hash(pages[i].0));
            different_pages_lie_apart(base, front[i].0, last.0);
            paths_differ(base, front[i].0, last.0);
            paths_differ(base, last.0, front[i].0);
        }
        paths_are_listed(base, front, html);
        paths_are_listed(base, front, meta);
        assert(!before.contains(html));
        assert(!before.contains(meta));
        let all = before.push(html).push(meta);
        assert forall|i: int, j: int|
            0 <= i < all.len() && 0 <= j < all.len() && i != j implies all[i] != all[j] by {
            if i < before.len() {
                assert(before.contains(before[i]));
            }
            if j < before.len() {
                assert(before.contains(before[j]));
            }
        }
    }
}

proof fn disk_holds_kept_pages(base: Seq<char>, stores: Seq<StoreCall>)
    ensures
        well_kept(kept_pages(stores)),
        holds(disk_after(base, stores), base, kept_pages(stores)),
    decreases stores.len(),
{
    let disk = disk_after(base, stores);
    let pages = kept_pages(stores);
    if stores.len() > 0 {
        let earlier = stores.drop_last();
        disk_holds_kept_pages(base, earlier);
        let last = stores.last();
        let hash = hash_of(last.url);
        let before = kept_pages(earlier);
        let old_disk = disk_after(base, earlier);
        hashes_are_hashes(last.url);
        kept_at_is_sound(before, hash);
        paths_differ(base, hash, hash);
        assert forall|i: int| 0 <= i < pages.len() implies is_hash((#[trigger] pages[i]).0) by {
            if i < before.len() {
                assert(is_hash(before[i].0));
            }
        }
        assert forall|i: int, j: int| 0 <= i < j < pages.len() implies (#[trigger] pages[i]).0 != (
        #[trigger] pages[j]).0 by {
            if j < before.len() {
                assert(before[i].0 != before[j].0);
            }
        }
        assert forall|path: Seq<char>| #[trigger]
            disk.contains_key(path) <==> paths_of_pages(base, pages).contains(path) by {
            paths_are_listed(base, pages, path);
            paths_are_listed(base, before, path);
            let here = match kept_at(before, hash) {
                Some(at) => at,
                None => before.len() as int,
            };
            assert(pages[here].0 == hash);
            if old_disk.contains_key(path) {
                let i = choose|i: int|
                    0 <= i < before.len() && (path == html_path_of(base, (#[trigger] before[i]).0)
                        || path == meta_path_of(base, before[i].0));
                assert(pages[i].0 == before[i].0);
            }
            if paths_of_pages(base, pages).contains(path) {
                let i = choose|i: int|
                    0 <= i < pages.len() && (path == html_path_of(base, (#[trigger] pages[i]).0)
                        || path == meta_path_of(base, pages[i].0));
                if i != here {
                    assert(before[i].0 == pages[i].0);
                    assert(old_disk.contains_key(path));
                }
            }
        }
        assert forall|i: int| 0 <= i < pages.len() implies page_at(
            disk,
            html_path_of(base, (#[trigger] pages[i]).0),
        ) == Some(pages[i].1) by {
            if pages[i].0 != hash {
                assert(pages[i] == before[i]);
                assert(is_hash(before[i].0));
                different_pages_lie_apart(base, pages[i].0, hash);
                paths_differ(base, pages[i].0, hash);
            } else {
                match kept_at(before, hash) {
                    Some(at) => {
                        if i < at {
                            assert(pages[i].0 != pages[at].0);
                        } else if at < i {
                            assert(pages[at].0 != pages[i].0);
                        }
                    },
                    None => {
                        if i < before.len() {
                            assert(before[i].0 != hash);
                        }
                    },
                }
            }
        }
    } else {
        assert forall|path: Seq<char>| #[trigger]
            disk.contains_key(path) <==> paths_of_pages(base, pages).contains(path) by {}
    }
}

proof fn name_is_read(front: Seq<char>, name: Seq<char>)
    requires
        front.len() > 0,
        front.last() == '/',
        forall|i: int| 0 <= i < name.len() ==> #[trigger] name[i] != '/',
    ensures
        file_name(front + name) == name,
    decreases name.len(),
{
    let path = front + name;
    if name.len() == 0 {
        assert(path == front);
    } else {
        assert(path.last() == name.last());
        assert(path.drop_last() == front + name.drop_last());
        name_is_read(front, name.drop_last());
    }
}

proof fn names_of_files(base: Seq<char>, hash: Seq<char>)
    requires
        is_hash(hash),
    ensures
        is_html_name(file_name(html_path_of(base, hash))),
        !is_html_name(file_name(meta_path_of(base, hash))),
{
    reveal_strlit("/");
    reveal_strlit(".html");
    reveal_strlit(".json");
    let front = dir_of(base, hash) + "/"@;
    let html = hash + ".html"@;
    let meta = hash + ".json"@;
    assert(html_path_of(base, hash) == front + html);
    assert(meta_path_of(base, hash) == front + meta);
    assert forall|i: int| 0 <= i < html.len() implies #[trigger] html[i] != '/' by {
        if i < hash.len() {
            assert(hash[i] != '/');
        }
    }
    assert forall|i: int| 0 <= i < meta.len() implies #[trigger] meta[i] != '/' by {
        if i < hash.len() {
            assert(hash[i] != '/');
        }
    }
    name_is_read(front, html);
    name_is_read(front, meta);
    assert(html.skip(html.len() - 5) == ".html"@);
    assert(meta.skip(meta.len() - 5).last() == 'n');
    assert(".html"@.last() == 'l');
}

/// One for the file of a page.
spec fn file_count(path: Seq<char>) -> nat {
    if is_html_name(file_name(path)) {
        1
    } else {
        0
    }
}

/// The bytes of the page in the file.
spec fn file_bytes(disk: DiskModel, path: Seq<char>) -> nat {
    if is_html_name(file_name(path)) {
        match page_at(disk, path) {
            Some(html) => vstd::utf8::encode_utf8(html).len(),
            None => 0,
        }
    } else {
        0
    }
}

proof fn pages_add_up(disk: DiskModel, base: Seq<char>, pages: Seq<KeptPage>)
    requires
        well_kept(pages),
        forall|i: int|
            0 <= i < pages.len() ==> page_at(disk, html_path_of(base, (#[trigger] pages[i]).0))
                == Some(pages[i].1),
    ensures
        sum_over(paths_of_pages(base, pages), |path: Seq<char>| file_count(path)) == pages.len(),
        sum_over(paths_of_pages(base, pages), |path: Seq<char>| file_bytes(disk, path))
            == kept_bytes(pages),
    decreases pages.len(),
{
    if pages.len() > 0 {
        let front = pages.drop_last();
        let last = pages[pages.len() - 1];
        assert forall|i: int| 0 <= i < front.len() implies is_hash((#[trigger] front[i]).0)
            && page_at(disk, html_path_of(base, front[i].0)) == Some(front[i].1) by {
            assert(is_hash(pages[i].0));
        }
        assert forall|i: int, j: int| 0 <= i < j < front.len() implies (#[trigger] front[i]).0 != (
        #[trigger] front[j]).0 by {
            assert(pages[i].0 != pages[j].0);
        }
        pages_add_up(disk, base, front);
        assert(is_hash(last.0));
        names_of_files(base, last.0);
        let html = html_path_of(base, last.0);
        let meta = meta_path_of(base, last.0);
        let before = paths_of_pages(base, front);
        let all = paths_of_pages(base, pages);
        assert(all == before.push(html).push(meta));
        assert(all.drop_last() == before.push(html));
        assert(before.push(html).drop_last() == before);
        reveal_with_fuel(sum_over, 3);
    }
}

proof fn files_add_up(
    files: Seq<(String, u64)>,
    paths: Seq<Seq<char>>,
    disk: DiskModel,
    n: int,
)
    requires
        0 <= n <= files.len(),
        lists_paths(files, paths, disk),
        forall|i: int|
            0 <= i < paths.len() && is_html_name(file_name(#[trigger] paths[i])) ==> page_at(
                disk,
                paths[i],
            ) is Some,
    ensures
        html_files(files.take(n)) == sum_over(
            paths.take(n),
            |path: Seq<char>| file_count(path),
        ),
        html_bytes(files.take(n)) == sum_over(
            paths.take(n),
            |path: Seq<char>| file_bytes(disk, path),
        ),
    decreases n,
{
    if n > 0 {
        files_add_up(files, paths, disk, n - 1);
        assert(files.take(n).drop_last() == files.take(n - 1));
        assert(paths.take(n).drop_last() == paths.take(n - 1));
        assert(files[n - 1].0@ == file_name(paths[n - 1]));
    }
}

/// Each page in the cache counts once, with the bytes of its latest HTML, however often it
/// was put in; what is known of the pages counts neither as pages nor as bytes.
pub proof fn stats_count_each_page_once(
    base: Seq<char>,
    stores: Seq<StoreCall>,
    files: Seq<(String, u64)>,
)
    requires
        lists_disk(files, disk_after(base, stores)),
    ensures
        html_files(files) == kept_pages(stores).len(),
        html_bytes(files) == kept_bytes(kept_pages(stores)),
{
    let disk = disk_after(base, stores);
    let pages = kept_pages(stores);
    let paths = choose|paths: Seq<Seq<char>>| #[trigger] lists_paths(files, paths, disk);
    disk_holds_kept_pages(base, stores);
    paths_are_distinct(base, pages);
    let all = paths_of_pages(base, pages);
    assert forall|path: Seq<char>| paths.contains(path) <==> all.contains(path) by {
        assert(disk.contains_key(path) <==> all.contains(path));
    }
    sums_agree(paths, all, |path: Seq<char>| file_count(path));
    sums_agree(paths, all, |path: Seq<char>| file_bytes(disk, path));
    pages_add_up(disk, base, pages);
    assert forall|i: int|
        0 <= i < paths.len() && is_html_name(file_name(#[trigger] paths[i])) implies page_at(
        disk,
        paths[i],
    ) is Some by {
        assert(paths.contains(paths[i]));
        assert(all.contains(paths[i]));
        paths_are_listed(base, pages, paths[i]);
        let k = choose|k: int|
            0 <= k < pages.len() && (paths[i] == html_path_of(base, (#[trigger] pages[k]).0)
                || paths[i] == meta_path_of(base, pages[k].0));
        assert(is_hash(pages[k].0));
        names_of_files(base, pages[k].0);
    }
    files_add_up(files, paths, disk, files.len() as int);
    assert(files.take(files.len() as int) == files);
    assert(paths.take(paths.len() as int) == paths);
}

/// No two pages that are kept have the same hash, and for the page that was put in last,
/// its HTML is kept.
pub proof fn latest_pages_are_kept(stores: Seq<StoreCall>)
    requires
        stores.len() > 0,
    ensures
        forall|i: int, j: int|
            0 <= i < j < kept_pages(stores).len() ==> (#[trigger] kept_pages(stores)[i]).0 != (
            #[trigger] kept_pages(stores)[j]).0,
        kept_pages(stores).contains((hash_of(stores.last().url), stores.last().html)),
{
    disk_holds_kept_pages(Seq::empty(), stores);
    let before = kept_pages(stores.drop_last());
    kept_at_is_sound(before, hash_of(stores.last().url));
    match kept_at(before, hash_of(stores.last().url)) {
        Some(at) => assert(kept_pages(stores)[at].1 == stores.last().html),
        None => assert(kept_pages(stores)[before.len() as int].1 == stores.last().html),
    }
}

} // verus!
