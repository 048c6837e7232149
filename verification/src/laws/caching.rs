//! Promises about the page cache: where a page lies, and what is counted.
use vstd::prelude::*;
use vstd::utf8::encode_utf8;

use crate::cache::FileModel;
use crate::cache::MetaModel;
use crate::clock::Timestamp;
use crate::laws::text::finishes;

verus! {

/// The number that a hexadecimal digit in lower case stands for.
pub open spec fn digit_value(c: char) -> int {
    if '0' <= c <= '9' {
        c as int - '0' as int
    } else {
        c as int - 'a' as int + 10
    }
}

/// A page is kept under 64 hexadecimal digits, two for each byte of the SHA-256 digest of its
/// URL, the higher one first.
pub proof fn pages_are_kept_under_their_digest(url: Seq<char>, i: int)
    requires
        0 <= i < 32,
    ensures
        crate::cache::hash_of(url).len() == 64,
        digit_value(crate::cache::hash_of(url)[2 * i]) * 16 + digit_value(
            crate::cache::hash_of(url)[2 * i + 1],
        ) == crate::cache::sha256_digest(encode_utf8(url))@[i],
        ('0' <= crate::cache::hash_of(url)[2 * i] <= '9') || ('a' <= crate::cache::hash_of(
            url,
        )[2 * i] <= 'f'),
        ('0' <= crate::cache::hash_of(url)[2 * i + 1] <= '9') || ('a' <= crate::cache::hash_of(
            url,
        )[2 * i + 1] <= 'f'),
{
    let bytes = crate::cache::sha256_digest(encode_utf8(url))@;
    let b = bytes[i] as int;
    assert((2 * i) / 2 == i && (2 * i) % 2 == 0);
    assert((2 * i + 1) / 2 == i && (2 * i + 1) % 2 == 1);
    assert(0 <= b / 16 < 16 && 0 <= b % 16 < 16);
}

/// A page lies in a directory that is named by the first sixteen digits of its hash, in a file
/// that is named by all of them; what is known of it lies beside it.
pub proof fn pages_lie_in_their_directory(base: Seq<char>, front: Seq<char>, back: Seq<char>)
    requires
        front.len() == 16,
    ensures
        crate::cache::dir_of(base, front + back) == base + "/"@ + front,
        crate::cache::html_path_of(base, front + back) == base + "/"@ + front + "/"@ + front + back
            + ".html"@,
        crate::cache::meta_path_of(base, front + back) == base + "/"@ + front + "/"@ + front + back
            + ".json"@,
{
    assert((front + back).subrange(0, 16) == front);
    assert(crate::cache::html_path_of(base, front + back) =~= base + "/"@ + front + "/"@ + front
        + back + ".html"@);
    assert(crate::cache::meta_path_of(base, front + back) =~= base + "/"@ + front + "/"@ + front
        + back + ".json"@);
}

/// Storing a page writes the page, and beside it its URL, its title, when it was fetched and
/// how many bytes it has, and nothing else.
pub proof fn storing_writes_two_files(
    disk: crate::cache::DiskModel,
    base: Seq<char>,
    url: Seq<char>,
    title: Seq<char>,
    html: Seq<char>,
    now: Timestamp,
)
    ensures
        crate::cache::after_store(disk, base, url, title, html, now) == disk.insert(
            crate::cache::html_path_of(base, crate::cache::hash_of(url)),
            FileModel::Page(html),
        ).insert(
            crate::cache::meta_path_of(base, crate::cache::hash_of(url)),
            FileModel::Meta(
                MetaModel {
                    url,
                    title,
                    fetched_at: now,
                    content_length: encode_utf8(html).len(),
                },
            ),
        ),
{
}

/// What is read of the cache is what lies there: the page in a page's file, what is known of a
/// page in the file beside it, and nothing where there is no such file.
pub proof fn reading_gives_what_lies_there(
    disk: crate::cache::DiskModel,
    path: Seq<char>,
    html: Seq<char>,
    meta: MetaModel,
)
    ensures
        crate::cache::page_at(disk, path) == Some(html) <==> disk.contains_key(path) && disk[path]
            == FileModel::Page(html),
        crate::cache::meta_at(disk, path) == Some(meta) <==> disk.contains_key(path) && disk[path]
            == FileModel::Meta(meta),
{
}

/// A page is looked for where it is kept: its HTML and what is known of it in the directory of
/// its hash, and it is there exactly if the file of its HTML is.
pub proof fn pages_are_looked_for_where_they_lie(
    disk: crate::cache::DiskModel,
    base: Seq<char>,
    url: Seq<char>,
)
    ensures
        ({
            let hash = crate::cache::hash_of(url);
            let place = base + "/"@ + hash.take(16) + "/"@ + hash;
            &&& crate::cache::html_on(disk, base, url) == crate::cache::page_at(
                disk,
                place + ".html"@,
            )
            &&& crate::cache::meta_on(disk, base, url) == crate::cache::meta_at(
                disk,
                place + ".json"@,
            )
            &&& crate::cache::contains_on(disk, base, url) <==> disk.contains_key(
                place + ".html"@,
            )
        }),
{
    let hash = crate::cache::hash_of(url);
    assert(hash.take(16) == hash.subrange(0, 16));
}

/// The name of a page's file: something, and `.html` behind it.
pub open spec fn names_a_page(name: Seq<char>) -> bool {
    name != ".html"@ && finishes(name, ".html"@)
}

/// A file counts as a page exactly if its name is something with `.html` behind it.
pub proof fn page_files_end_in_html(name: Seq<char>)
    ensures
        crate::cache::is_html_name(name) <==> names_a_page(name),
{
    reveal_strlit(".html");
    crate::laws::text::ending(name, ".html"@);
    if finishes(name, ".html"@) {
        let front = choose|front: Seq<char>| name == #[trigger] (front + ".html"@);
        if name.len() == 5 {
            assert(front =~= Seq::<char>::empty());
            assert(name =~= ".html"@);
        }
    }
}

/// The pages among files are counted one by one, and their sizes are added up; other files
/// count for nothing.
pub proof fn files_are_counted(a: Seq<(String, u64)>, file: (String, u64))
    ensures
        crate::cache::html_files(Seq::empty()) == 0,
        crate::cache::html_bytes(Seq::empty()) == 0,
        names_a_page(file.0@) ==> crate::cache::html_files(a.push(file))
            == crate::cache::html_files(a) + 1 && crate::cache::html_bytes(a.push(file))
            == crate::cache::html_bytes(a) + file.1,
        !names_a_page(file.0@) ==> crate::cache::html_files(a.push(file))
            == crate::cache::html_files(a) && crate::cache::html_bytes(a.push(file))
            == crate::cache::html_bytes(a),
{
    page_files_end_in_html(file.0@);
    assert(a.push(file).drop_last() == a);
    assert(a.push(file).last() == file);
}

} // verus!
