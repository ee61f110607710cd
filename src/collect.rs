//! The content collector: selects the files of a directory tree by extension
//! and name, and joins them into one text with a header before each file.

use vstd::prelude::*;
use crate::text::{last_index_of, find_last, lemma_last_index_of_bounds};

verus! {

broadcast use vstd::std_specs::vec::group_vec_axioms, vstd::seq::group_seq_axioms;

/// One entry of a directory listing, as the listing facility yields it.
///
/// `content` holds the file's text. A loader may leave it empty for a file
/// that `file_matches` rejects, since such a file contributes nothing.
pub enum Entry {
    File { name: String, content: String },
    Dir { entries: Vec<Entry> },
}

/// The extension of a file name: what follows its last dot, unless that dot
/// opens the name.
pub open spec fn extension_of(name: Seq<char>) -> Option<Seq<char>> {
    let d = last_index_of(name, '.');
    if d > 0 {
        Some(name.subrange(d + 1, name.len() as int))
    } else {
        None
    }
}

/// The last component of a slash-separated path.
pub open spec fn file_name_of(path: Seq<char>) -> Seq<char> {
    path.subrange(last_index_of(path, '/') + 1, path.len() as int)
}

/// A file takes part when its extension is `ext` and its name is not excluded.
pub open spec fn is_selected(name: Seq<char>, ext: Seq<char>, exclude: Seq<Seq<char>>) -> bool {
    extension_of(name) == Some(ext) && !exclude.contains(name)
}

/// Output into a Markdown file wraps each file's text in a fenced block.
pub open spec fn is_markdown(output_path: Seq<char>) -> bool {
    output_path == "output.md"@ || extension_of(file_name_of(output_path)) == Some("md"@)
}

pub open spec fn placeholder() -> Seq<char> {
    seq!['{', 'f', 'i', 'l', 'e', 'n', 'a', 'm', 'e', '}']
}

/// The separator template with every `{filename}`, read left to right, replaced
/// by `name`.
pub open spec fn render(template: Seq<char>, name: Seq<char>) -> Seq<char>
    decreases template.len(),
{
    let p = placeholder();
    if template.len() == 0 {
        Seq::empty()
    } else if template.len() >= p.len() && template.subrange(0, p.len() as int) == p {
        name + render(template.subrange(p.len() as int, template.len() as int), name)
    } else {
        template.subrange(0, 1) + render(template.subrange(1, template.len() as int), name)
    }
}

pub open spec fn opening_fence(ext: Seq<char>) -> Seq<char> {
    "``` "@ + ext + "\n"@
}

pub open spec fn closing_fence() -> Seq<char> {
    "```\n"@
}

/// What one included file adds to the combined text.
pub open spec fn section(
    name: Seq<char>,
    content: Seq<char>,
    ext: Seq<char>,
    separator: Seq<char>,
    markdown: bool,
) -> Seq<char> {
    render(separator, name) + "\n"@ + (if markdown {
        opening_fence(ext)
    } else {
        Seq::empty()
    }) + content + "\n"@ + (if markdown {
        closing_fence()
    } else {
        Seq::empty()
    })
}

/// The combined text of one entry: its section for a selected file, nothing
/// for another file, the text of its entries for a directory.
pub open spec fn entry_text(
    e: Entry,
    ext: Seq<char>,
    separator: Seq<char>,
    exclude: Seq<Seq<char>>,
    markdown: bool,
) -> Seq<char>
    decreases e,
{
    match e {
        Entry::File { name, content } => if is_selected(name@, ext, exclude) {
            section(name@, content@, ext, separator, markdown)
        } else {
            Seq::empty()
        },
        Entry::Dir { entries } => entries_text(entries@, ext, separator, exclude, markdown),
    }
}

/// The combined text of a listing: each entry's text, in listing order.
pub open spec fn entries_text(
    es: Seq<Entry>,
    ext: Seq<char>,
    separator: Seq<char>,
    exclude: Seq<Seq<char>>,
    markdown: bool,
) -> Seq<char>
    decreases es,
{
    if es.len() == 0 {
        Seq::empty()
    } else {
        entries_text(es.drop_last(), ext, separator, exclude, markdown) + entry_text(
            es.last(),
            ext,
            separator,
            exclude,
            markdown,
        )
    }
}

/// Tells whether `name` has extension `ext`.
pub fn has_extension(name: &str, ext: &str) -> (r: bool)
    ensures
        r == (extension_of(name@) == Some(ext@)),
{
    match find_last(name, '.') {
        Some(d) => {
            if d == 0 {
                false
            } else {
                proof {
                    lemma_last_index_of_bounds(name@, '.');
                }
                let n = name.unicode_len();
                let tail = String::from_str(name.substring_char(d + 1, n));
                let want = String::from_str(ext);
                tail == want
            }
        },
        None => false,
    }
}

/// Tells whether the file `name` takes part in the combined text.
pub fn file_matches(name: &String, ext: &str, exclude: &Vec<String>) -> (r: bool)
    ensures
        r == is_selected(name@, ext@, exclude.deep_view()),
{
    if !has_extension(name.as_str(), ext) {
        return false;
    }
    let mut i: usize = 0;
    while i < exclude.len()
        invariant
            i <= exclude.len(),
            forall|k: int| 0 <= k < i ==> exclude[k]@ != name@,
        decreases exclude.len() - i,
    {
        if *name == exclude[i] {
            assert(exclude.deep_view()[i as int] == name@);
            return false;
        }
        i = i + 1;
    }
    assert(!exclude.deep_view().contains(name@)) by {
        if exclude.deep_view().contains(name@) {
            let k = choose|k: int| 0 <= k < exclude.deep_view().len() && exclude.deep_view()[k] == name@;
            assert(exclude[k]@ == name@);
        }
    }
    true
}

/// Tells whether output written to `output_path` is wrapped as Markdown.
pub fn is_markdown_output(output_path: &str) -> (r: bool)
    ensures
        r == is_markdown(output_path@),
{
    let whole = String::from_str(output_path);
    let canonical = String::from_str("output.md");
    if whole == canonical {
        return true;
    }
    let n = output_path.unicode_len();
    proof {
        lemma_last_index_of_bounds(output_path@, '/');
    }
    let start: usize = match find_last(output_path, '/') {
        Some(k) => k + 1,
        None => 0,
    };
    let name = output_path.substring_char(start, n);
    has_extension(name, "md")
}

/// The separator line for the file `filename`: `template` with each
/// `{filename}` replaced by the name.
pub fn render_separator(template: &str, filename: &str) -> (r: String)
    ensures
        r@ == render(template@, filename@),
{
    proof {
        reveal_strlit("{filename}");
    }
    let pattern = String::from_str("{filename}");
    assert(pattern@ =~= placeholder());
    let n = template.unicode_len();
    let mut out = String::new();
    let mut i: usize = 0;
    assert(template@.subrange(0, n as int) =~= template@);
    assert(out@ + render(template@, filename@) =~= render(template@, filename@));
    while i < n
        invariant
            n == template@.len(),
            i <= n,
            pattern@ == placeholder(),
            render(template@, filename@) == out@ + render(
                template@.subrange(i as int, n as int),
                filename@,
            ),
        decreases n - i,
    {
        let ghost rest = template@.subrange(i as int, n as int);
        let mut hit = false;
        if n - i >= 10 {
            let window = String::from_str(template.substring_char(i, i + 10));
            hit = window == pattern;
            proof {
                assert(rest.subrange(0, 10) =~= template@.subrange(i as int, i + 10));
            }
        }
        if hit {
            out.append(filename);
            proof {
                assert(rest.subrange(10, rest.len() as int) =~= template@.subrange(i + 10, n as int));
            }
            i = i + 10;
        } else {
            out.append(template.substring_char(i, i + 1));
            proof {
                assert(rest.subrange(1, rest.len() as int) =~= template@.subrange(i + 1, n as int));
                assert(rest.subrange(0, 1) =~= template@.subrange(i as int, i + 1));
            }
            i = i + 1;
        }
    }
    proof {
        assert(template@.subrange(n as int, n as int) =~= Seq::<char>::empty());
    }
    out
}

fn append_section(
    out: &mut String,
    name: &str,
    content: &str,
    ext: &str,
    separator: &str,
    markdown: bool,
)
    ensures
        final(out)@ == old(out)@ + section(name@, content@, ext@, separator@, markdown),
{
    let line = render_separator(separator, name);
    out.append(line.as_str());
    out.append("\n");
    if markdown {
        out.append("``` ");
        out.append(ext);
        out.append("\n");
    }
    out.append(content);
    out.append("\n");
    if markdown {
        out.append("```\n");
    }
    assert(final(out)@ =~= old(out)@ + section(name@, content@, ext@, separator@, markdown));
}

fn append_entries(
    out: &mut String,
    entries: &Vec<Entry>,
    ext: &str,
    separator: &str,
    exclude: &Vec<String>,
    markdown: bool,
)
    ensures
        final(out)@ == old(out)@ + entries_text(
            entries@,
            ext@,
            separator@,
            exclude.deep_view(),
            markdown,
        ),
    decreases entries,
{
    let ghost start = out@;
    let mut i: usize = 0;
    assert(entries@.subrange(0, 0) =~= Seq::<Entry>::empty());
    assert(out@ =~= start + entries_text(entries@.subrange(0, 0), ext@, separator@, exclude.deep_view(), markdown));
    while i < entries.len()
        invariant
            i <= entries.len(),
            out@ == start + entries_text(
                entries@.subrange(0, i as int),
                ext@,
                separator@,
                exclude.deep_view(),
                markdown,
            ),
        decreases entries.len() - i,
    {
        let ghost before = out@;
        match &entries[i] {
            Entry::File { name, content } => {
                if file_matches(name, ext, exclude) {
                    append_section(out, name.as_str(), content.as_str(), ext, separator, markdown);
                }
            },
            Entry::Dir { entries: sub } => {
                append_entries(out, sub, ext, separator, exclude, markdown);
            },
        }
        assert(out@ =~= before + entry_text(entries@[i as int], ext@, separator@, exclude.deep_view(), markdown));
        proof {
            let prefix = entries@.subrange(0, i + 1);
            assert(prefix.drop_last() =~= entries@.subrange(0, i as int));
            assert(prefix.last() == entries@[i as int]);
            assert(out@ =~= start + entries_text(prefix, ext@, separator@, exclude.deep_view(), markdown));
        }
        i = i + 1;
    }
    assert(entries@.subrange(0, i as int) =~= entries@);
}

/// Joins the selected files under `root`, in listing order, into one text.
///
/// Each file whose extension is `ext` and whose name is not in `exclude`
/// contributes its separator line, then its text, each followed by a line
/// break; for a Markdown `output_path` the text also stands in a fenced block
/// tagged with `ext`. A subdirectory's text is complete before the next
/// entry of its parent begins.
pub fn collect_file_contents(
    root: &Vec<Entry>,
    ext: &str,
    separator: &str,
    output_path: &str,
    exclude: &Vec<String>,
) -> (r: String)
    ensures
        r@ == entries_text(
            root@,
            ext@,
            separator@,
            exclude.deep_view(),
            is_markdown(output_path@),
        ),
{
    let markdown = is_markdown_output(output_path);
    let mut out = String::new();
    append_entries(&mut out, root, ext, separator, exclude, markdown);
    assert(out@ =~= entries_text(root@, ext@, separator@, exclude.deep_view(), markdown));
    out
}

/// The files of one entry, as (name, text) pairs in traversal order.
pub open spec fn entry_files(e: Entry) -> Seq<(Seq<char>, Seq<char>)>
    decreases e,
{
    match e {
        Entry::File { name, content } => seq![(name@, content@)],
        Entry::Dir { entries } => listing_files(entries@),
    }
}

/// The files of a listing and of all its subdirectories, in traversal order.
pub open spec fn listing_files(es: Seq<Entry>) -> Seq<(Seq<char>, Seq<char>)>
    decreases es,
{
    if es.len() == 0 {
        Seq::empty()
    } else {
        listing_files(es.drop_last()) + entry_files(es.last())
    }
}

pub open spec fn selects(ext: Seq<char>, exclude: Seq<Seq<char>>) -> spec_fn(
    (Seq<char>, Seq<char>),
) -> bool {
    |f: (Seq<char>, Seq<char>)| is_selected(f.0, ext, exclude)
}

/// One section for each file of `files`, in order.
pub open spec fn sections_of(
    files: Seq<(Seq<char>, Seq<char>)>,
    ext: Seq<char>,
    separator: Seq<char>,
    markdown: bool,
) -> Seq<char>
    decreases files.len(),
{
    if files.len() == 0 {
        Seq::empty()
    } else {
        sections_of(files.drop_last(), ext, separator, markdown) + section(
            files.last().0,
            files.last().1,
            ext,
            separator,
            markdown,
        )
    }
}

proof fn lemma_sections_of_add(
    a: Seq<(Seq<char>, Seq<char>)>,
    b: Seq<(Seq<char>, Seq<char>)>,
    ext: Seq<char>,
    separator: Seq<char>,
    markdown: bool,
)
    ensures
        sections_of(a + b, ext, separator, markdown) == sections_of(a, ext, separator, markdown)
            + sections_of(b, ext, separator, markdown),
    decreases b.len(),
{
    if b.len() == 0 {
        assert(a + b =~= a);
        assert(sections_of(a, ext, separator, markdown) + sections_of(b, ext, separator, markdown)
            =~= sections_of(a, ext, separator, markdown));
    } else {
        assert((a + b).drop_last() =~= a + b.drop_last());
        assert((a + b).last() == b.last());
        lemma_sections_of_add(a, b.drop_last(), ext, separator, markdown);
        assert(sections_of(a + b, ext, separator, markdown) =~= sections_of(a, ext, separator, markdown)
            + sections_of(b, ext, separator, markdown));
    }
}

/// The combined text of an entry holds one section for each selected file
/// under it, in traversal order, and nothing else.
pub proof fn lemma_entry_text_is_selected_files(
    e: Entry,
    ext: Seq<char>,
    separator: Seq<char>,
    exclude: Seq<Seq<char>>,
    markdown: bool,
)
    ensures
        entry_text(e, ext, separator, exclude, markdown) == sections_of(
            entry_files(e).filter(selects(ext, exclude)),
            ext,
            separator,
            markdown,
        ),
    decreases e,
{
    match e {
        Entry::File { name, content } => {
            let files = seq![(name@, content@)];
            let p = selects(ext, exclude);
            assert(files.drop_last() =~= Seq::<(Seq<char>, Seq<char>)>::empty());
            files.drop_last().lemma_filter_push(files.last(), p);
            assert(files.drop_last().push(files.last()) =~= files);
            let kept = files.filter(p);
            if is_selected(name@, ext, exclude) {
                assert(kept =~= files);
                assert(kept.drop_last() =~= Seq::<(Seq<char>, Seq<char>)>::empty());
                assert(kept.last() == (name@, content@));
                assert(sections_of(kept.drop_last(), ext, separator, markdown) == Seq::<char>::empty());
                assert(sections_of(kept, ext, separator, markdown) =~= section(
                    name@,
                    content@,
                    ext,
                    separator,
                    markdown,
                ));
            } else {
                assert(kept =~= Seq::<(Seq<char>, Seq<char>)>::empty());
            }
        },
        Entry::Dir { entries } => {
            lemma_listing_text_is_selected_files(entries@, ext, separator, exclude, markdown);
        },
    }
}

/// The combined text of a listing holds one section for each selected file
/// of the whole tree, in traversal order, and nothing else: every file whose
/// extension is `ext` and whose name is not excluded appears exactly once.
pub proof fn lemma_listing_text_is_selected_files(
    es: Seq<Entry>,
    ext: Seq<char>,
    separator: Seq<char>,
    exclude: Seq<Seq<char>>,
    markdown: bool,
)
    ensures
        entries_text(es, ext, separator, exclude, markdown) == sections_of(
            listing_files(es).filter(selects(ext, exclude)),
            ext,
            separator,
            markdown,
        ),
    decreases es,
{
    let p = selects(ext, exclude);
    if es.len() == 0 {
        assert(listing_files(es).filter(p) =~= Seq::<(Seq<char>, Seq<char>)>::empty());
    } else {
        let front = listing_files(es.drop_last());
        let back = entry_files(es.last());
        lemma_listing_text_is_selected_files(es.drop_last(), ext, separator, exclude, markdown);
        lemma_entry_text_is_selected_files(es.last(), ext, separator, exclude, markdown);
        Seq::filter_distributes_over_add(front, back, p);
        lemma_sections_of_add(front.filter(p), back.filter(p), ext, separator, markdown);
    }
}

/// For a Markdown output path each file's text stands between an opening
/// fence naming the extension and a closing fence; for any other output path
/// no fence is written.
pub proof fn lemma_fences_follow_output_kind(
    output_path: Seq<char>,
    name: Seq<char>,
    content: Seq<char>,
    ext: Seq<char>,
    separator: Seq<char>,
)
    ensures
        is_markdown(output_path) ==> section(
            name,
            content,
            ext,
            separator,
            is_markdown(output_path),
        ) == render(separator, name) + "\n"@ + opening_fence(ext) + content + "\n"@
            + closing_fence(),
        !is_markdown(output_path) ==> section(
            name,
            content,
            ext,
            separator,
            is_markdown(output_path),
        ) == render(separator, name) + "\n"@ + content + "\n"@,
{
    let md = is_markdown(output_path);
    if md {
        assert(section(name, content, ext, separator, md) =~= render(separator, name) + "\n"@
            + opening_fence(ext) + content + "\n"@ + closing_fence());
    } else {
        assert(section(name, content, ext, separator, md) =~= render(separator, name) + "\n"@
            + content + "\n"@);
    }
}

/// Whether `{filename}` occurs nowhere in `template`.
pub open spec fn lacks_placeholder(template: Seq<char>) -> bool {
    forall|i: int|
        0 <= i && i + placeholder().len() <= template.len() ==> #[trigger] template.subrange(
            i,
            i + placeholder().len(),
        ) != placeholder()
}

/// A template without `{filename}` is written unchanged, whatever the file.
pub proof fn lemma_literal_separator_is_kept(template: Seq<char>, name: Seq<char>)
    requires
        lacks_placeholder(template),
    ensures
        render(template, name) == template,
    decreases template.len(),
{
    if template.len() > 0 {
        let p = placeholder();
        let rest = template.subrange(1, template.len() as int);
        if template.len() >= p.len() {
            let z: int = 0;
            assert(template.subrange(z, z + p.len()) != p);
        }
        assert forall|i: int| 0 <= i && i + p.len() <= rest.len() implies #[trigger] rest.subrange(
            i,
            i + p.len(),
        ) != p by {
            assert(rest.subrange(i, i + p.len()) =~= template.subrange(i + 1, i + 1 + p.len()));
        }
        lemma_literal_separator_is_kept(rest, name);
        assert(template.subrange(0, 1) + rest =~= template);
    }
}

} // verus!
