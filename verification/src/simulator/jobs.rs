//! Where received jobs are kept, and what is said of them.

use vstd::prelude::*;

use crate::path::{is_part, is_path_in, join};
use crate::simulator::raster::{decode, decoded, page_views, DecodeError, Page, PageView};
use crate::text::{
    ascii_lower, chars, decimal, eq_ignore_ascii_case, equal_ignoring_case, is_trim_end,
    is_trim_start, law_decimals_read_back, law_integers_read_back, law_trimmed_end,
    law_trimmed_start, lemma_decimal, lemma_padded_decimal, lemma_trimmed_end, lemma_trimmed_start,
    number_of, padded_decimal, push_decimal, push_padded, string, trimmed_end, trimmed_start,
};
use crate::uri::{str_of, text_of};

verus! {

/// A directory of received jobs.
pub struct JobStore {
    /// The directory's path.
    pub dir: String,
}

/// A job that was received and kept.
#[derive(Debug)]
pub struct SavedJob {
    /// Where it was kept.
    pub path: String,
    /// How many pages of it were previewed.
    pub preview_pages: usize,
    /// Set if the document format claimed a format this simulator can decode
    /// (currently just PWG-Raster) but decoding it failed — a strong signal
    /// the sender's encoder produced a malformed stream.
    pub preview_error: Option<String>,
}

/// What a [`SavedJob`] holds.
#[verifier::ext_equal]
pub struct SavedData {
    pub path: Seq<char>,
    pub preview_pages: nat,
    pub preview_error: Option<Seq<char>>,
}

impl View for SavedJob {
    type V = SavedData;

    open spec fn view(&self) -> SavedData {
        SavedData {
            path: self.path@,
            preview_pages: self.preview_pages as nat,
            preview_error: text_of(self.preview_error),
        }
    }
}

/// The file name extension for a document format, ignoring case.
pub open spec fn extension(document_format: Seq<char>) -> Seq<char> {
    if equal_ignoring_case(document_format, "image/pwg-raster"@) {
        "pwg"@
    } else if equal_ignoring_case(document_format, "image/urf"@) {
        "urf"@
    } else if equal_ignoring_case(document_format, "application/pdf"@) {
        "pdf"@
    } else {
        "bin"@
    }
}

/// The file name extension for a document format (see [`extension`]).
pub fn extension_for(document_format: &str) -> (ext: &'static str)
    ensures
        ext@ == extension(document_format@),
{
    if eq_ignore_ascii_case(document_format, "image/pwg-raster") {
        "pwg"
    } else if eq_ignore_ascii_case(document_format, "image/urf") {
        "urf"
    } else if eq_ignore_ascii_case(document_format, "application/pdf") {
        "pdf"
    } else {
        "bin"
    }
}

/// An ASCII letter or digit.
pub open spec fn is_alphanumeric(c: char) -> bool {
    'a' <= c <= 'z' || 'A' <= c <= 'Z' || '0' <= c <= '9'
}

/// A name with a dash in place of every character but ASCII letters and
/// digits.
pub open spec fn cleaned(name: Seq<char>) -> Seq<char> {
    name.map_values(
        |c: char|
            if is_alphanumeric(c) {
                c
            } else {
                '-'
            },
    )
}

/// A text without dashes at either end.
pub open spec fn without_dashes(text: Seq<char>) -> Seq<char> {
    trimmed_end(trimmed_start(text, |c: char| c == '-'), |c: char| c == '-')
}

/// A filesystem-safe, human-readable stem from a job name: the cleaned name
/// without dashes at either end, up to 40 characters of it; "job" if nothing
/// is left.
pub open spec fn safe_name(name: Seq<char>) -> Seq<char> {
    let safe = without_dashes(cleaned(name));
    if safe.len() == 0 {
        "job"@
    } else if safe.len() > 40 {
        safe.take(40)
    } else {
        safe
    }
}

/// Whether `c` is an ASCII letter or digit.
fn alphanumeric(c: char) -> (is: bool)
    ensures
        is == is_alphanumeric(c),
{
    ('a' <= c && c <= 'z') || ('A' <= c && c <= 'Z') || ('0' <= c && c <= '9')
}

/// A filesystem-safe, human-readable stem from a job name (see [`safe_name`]).
pub fn slug(name: &str) -> (stem: String)
    ensures
        stem@ == safe_name(name@),
{
    let mut cs = chars(name);
    let mut i: usize = 0;
    while i < cs.len()
        invariant
            cs@.len() == name@.len(),
            i <= cs@.len(),
            forall|k: int| 0 <= k < i ==> cs@[k] == cleaned(name@)[k],
            forall|k: int| i <= k < cs@.len() ==> cs@[k] == name@[k],
        decreases cs.len() - i,
    {
        if !alphanumeric(cs[i]) {
            cs.set(i, '-');
        }
        i = i + 1;
    }
    assert(cs@ =~= cleaned(name@));
    let ghost drop = |c: char| c == '-';
    let mut from: usize = 0;
    assert(cs@.subrange(0, cs@.len() as int) =~= cs@);
    while from < cs.len() && cs[from] == '-'
        invariant
            from <= cs@.len(),
            drop == (|c: char| c == '-'),
            trimmed_start(cs@.subrange(from as int, cs@.len() as int), drop) == trimmed_start(
                cs@,
                drop,
            ),
        decreases cs.len() - from,
    {
        assert(cs@.subrange(from as int, cs@.len() as int).drop_first() =~= cs@.subrange(
            from + 1,
            cs@.len() as int,
        ));
        from = from + 1;
    }
    let mut to: usize = cs.len();
    while to > from && cs[to - 1] == '-'
        invariant
            from <= to <= cs@.len(),
            drop == (|c: char| c == '-'),
            trimmed_end(cs@.subrange(from as int, to as int), drop) == without_dashes(cs@),
        decreases to,
    {
        assert(cs@.subrange(from as int, to as int).drop_last() =~= cs@.subrange(
            from as int,
            to - 1,
        ));
        to = to - 1;
    }
    assert(without_dashes(cs@) == cs@.subrange(from as int, to as int));
    if from == to {
        return "job".to_owned();
    }
    let end: usize = if to - from > 40 { from + 40 } else { to };
    assert(to - from > 40 ==> cs@.subrange(from as int, to as int).take(40) =~= cs@.subrange(
        from as int,
        end as int,
    ));
    string(cs.as_slice(), from, end)
}

/// What the file names of a job start with.
pub open spec fn stem(job_id: i32, job_name: Option<Seq<char>>) -> Seq<char> {
    padded_decimal(job_id as int, 4) + "-"@ + safe_name(
        match job_name {
            Some(name) => name,
            None => "job"@,
        },
    )
}

/// The file name of a job's document.
pub open spec fn document_name(stem: Seq<char>, document_format: Seq<char>) -> Seq<char> {
    stem + "."@ + extension(document_format)
}

/// The file name of the picture of a page.
pub open spec fn picture_name(stem: Seq<char>, index: nat) -> Seq<char> {
    stem + "-page"@ + decimal(index) + ".png"@
}

/// What keeping a job takes: the file to write, and the pages to preview.
pub struct Plan {
    /// Where the directory is.
    pub dir: String,
    /// What the job's file names start with.
    pub stem: String,
    /// Where the document goes.
    pub path: String,
    /// The pages of a document that is decoded, or why it can't be.
    pub preview: Option<Result<Vec<Page>, DecodeError>>,
}

/// The pages of a document that is decoded, or why it can't be.
pub open spec fn preview_view(preview: Option<Result<Vec<Page>, DecodeError>>) -> Option<
    Result<Seq<PageView>, DecodeError>,
> {
    match preview {
        Some(Ok(pages)) => Some(Ok(page_views(pages@))),
        Some(Err(error)) => Some(Err(error)),
        None => None,
    }
}

/// What a document in a format is decoded to: nothing but PWG-Raster is.
pub open spec fn previewed(document_format: Seq<char>, data: Seq<u8>) -> Option<
    Result<Seq<PageView>, DecodeError>,
> {
    if equal_ignoring_case(document_format, "image/pwg-raster"@) {
        Some(decoded(data))
    } else {
        None
    }
}

/// What keeping a job takes: its document goes to a file named by job id and
/// job name, with an extension by its format, and if it claims to be PWG-Raster
/// it is decoded.
pub open spec fn is_plan(
    plan: Plan,
    dir: Seq<char>,
    job_id: i32,
    document_format: Seq<char>,
    job_name: Option<Seq<char>>,
    data: Seq<u8>,
) -> bool {
    &&& plan.dir@ == dir
    &&& plan.stem@ == stem(job_id, job_name)
    &&& is_path_in(plan.path@, dir, document_name(plan.stem@, document_format))
    &&& preview_view(plan.preview) == previewed(document_format, data)
}

impl JobStore {
    /// Jobs that are kept in a directory.
    pub fn new(dir: String) -> (store: JobStore)
        ensures
            store.dir@ == dir@,
    {
        JobStore { dir }
    }

    /// What keeping a job takes (see [`is_plan`]).
    pub fn save(
        &self,
        job_id: i32,
        document_format: &str,
        job_name: Option<&str>,
        data: &[u8],
    ) -> (plan: Plan)
        ensures
            is_plan(plan, self.dir@, job_id, document_format@, str_of(job_name), data@),
    {
        let ext = extension_for(document_format);
        let name = slug(
            match job_name {
                Some(name) => name,
                None => "job",
            },
        );
        let mut stem = String::new();
        push_padded(&mut stem, job_id, 4);
        assert(stem@ =~= padded_decimal(job_id as int, 4));
        stem.append("-");
        stem.append(name.as_str());
        let file = stem.clone().concat(".").concat(ext);
        proof {
            law_job_files_are_parts(job_id, str_of(job_name), document_format@, 0);
        }
        let preview = if eq_ignore_ascii_case(document_format, "image/pwg-raster") {
            Some(decode(data))
        } else {
            None
        };
        Plan {
            dir: self.dir.clone(),
            path: join(self.dir.as_str(), file.as_str()),
            stem,
            preview,
        }
    }
}

impl Plan {
    /// Where the picture of a page goes: in the directory, under the name of
    /// [`picture_name`], if that is a single part of a path, as it is for every
    /// plan that [`JobStore::save`] makes (see [`law_job_files_are_parts`]).
    pub fn picture_path(&self, index: usize) -> (path: String)
        ensures
            is_part(picture_name(self.stem@, index as nat)) ==> is_path_in(
                path@,
                self.dir@,
                picture_name(self.stem@, index as nat),
            ),
    {
        let mut file = self.stem.clone().concat("-page");
        push_decimal(&mut file, index as u64);
        file.append(".png");
        join(self.dir.as_str(), file.as_str())
    }

    /// What is said of a job whose document was written, given why a picture
    /// of it couldn't be.
    pub open spec fn saved(self, picture_error: Option<Seq<char>>) -> SavedData {
        SavedData {
            path: self.path@,
            preview_pages: match self.preview {
                Some(Ok(pages)) => pages@.len(),
                _ => 0,
            },
            preview_error: match self.preview {
                Some(Ok(pages)) => match picture_error {
                    Some(error) => Some("failed to write preview PNG: "@ + error),
                    None => None,
                },
                Some(Err(error)) => Some(error.message()),
                None => None,
            },
        }
    }

    /// What is said of a job whose document was written (see [`Plan::saved`]).
    pub fn finish(self, picture_error: Option<String>) -> (saved: SavedJob)
        ensures
            saved@ == self.saved(text_of(picture_error)),
    {
        let (preview_pages, preview_error) = match self.preview {
            Some(Ok(pages)) => {
                let error = match picture_error {
                    Some(error) => Some(
                        "failed to write preview PNG: ".to_owned().concat(error.as_str()),
                    ),
                    None => None,
                };
                (pages.len(), error)
            },
            Some(Err(error)) => (0, Some(error.to_string())),
            None => (0, None),
        };
        SavedJob { path: self.path, preview_pages, preview_error }
    }
}

/// A stem is never empty and never longer than 40 characters, and holds
/// nothing but ASCII letters, digits and dashes, so it is one file name part
/// wherever it stands.
pub proof fn law_stems_are_safe(name: Seq<char>)
    ensures
        0 < safe_name(name).len() <= 40,
        forall|i: int|
            0 <= i < safe_name(name).len() ==> is_alphanumeric(#[trigger] safe_name(name)[i])
                || safe_name(name)[i] == '-',
        is_alphanumeric(safe_name(name)[0]),
{
    reveal_strlit("job");
    let drop = |c: char| c == '-';
    let text = cleaned(name);
    let start = trimmed_start(text, drop);
    assert forall|c: char| text.contains(c) implies is_alphanumeric(c) || c == '-' by {
        let i = choose|i: int| 0 <= i < text.len() && text[i] == c;
        assert(text[i] == c);
    }
    lemma_trimmed_start(text, drop);
    lemma_trimmed_end(start, drop);
    let safe = without_dashes(text);
    assert forall|i: int| 0 <= i < safe.len() implies is_alphanumeric(#[trigger] safe[i])
        || safe[i] == '-' by {
        assert(safe.contains(safe[i]));
        assert(start.contains(safe[i]));
        assert(text.contains(safe[i]));
    }
    if safe.len() > 0 {
        assert(safe.contains(safe[0]));
        assert(start.contains(safe[0]));
        assert(text.contains(safe[0]));
    }
}

/// Whether a character is an ASCII letter or digit, a dash or a dot.
spec fn is_safe(c: char) -> bool {
    is_alphanumeric(c) || c == '-' || c == '.'
}

/// A stem holds nothing but ASCII letters, digits and dashes.
proof fn lemma_stem(job_id: i32, job_name: Option<Seq<char>>)
    ensures
        forall|i: int|
            0 <= i < stem(job_id, job_name).len() ==> is_safe(#[trigger] stem(job_id, job_name)[i]),
        stem(job_id, job_name).contains('-'),
{
    reveal_strlit("-");
    let number = padded_decimal(job_id as int, 4);
    lemma_padded_decimal(job_id as int, 4);
    law_stems_are_safe(
        match job_name {
            Some(name) => name,
            None => "job"@,
        },
    );
    assert(stem(job_id, job_name)[number.len() as int] == '-');
}

/// A safe name with a dash in it is a single part of a path.
proof fn lemma_safe_is_part(name: Seq<char>)
    requires
        forall|i: int| 0 <= i < name.len() ==> is_safe(#[trigger] name[i]),
        name.contains('-'),
    ensures
        is_part(name),
{
    let at = choose|i: int| 0 <= i < name.len() && name[i] == '-';
    assert(name[at] != '.');
}

/// The names of a job's files are each a single part of a path, whatever the
/// job is named, so that its files lie right in the directory that jobs are
/// kept in.
pub proof fn law_job_files_are_parts(
    job_id: i32,
    job_name: Option<Seq<char>>,
    document_format: Seq<char>,
    index: nat,
)
    ensures
        is_part(document_name(stem(job_id, job_name), document_format)),
        is_part(picture_name(stem(job_id, job_name), index)),
{
    reveal_strlit(".");
    reveal_strlit("pwg");
    reveal_strlit("urf");
    reveal_strlit("pdf");
    reveal_strlit("bin");
    reveal_strlit("-page");
    reveal_strlit(".png");
    let start = stem(job_id, job_name);
    lemma_stem(job_id, job_name);
    lemma_decimal(index);
    let at = choose|i: int| 0 <= i < start.len() && start[i] == '-';
    let document = document_name(start, document_format);
    let picture = picture_name(start, index);
    assert(document[at] == '-' && picture[at] == '-');
    lemma_safe_is_part(document);
    lemma_safe_is_part(picture);
}

/// A document's extension is that of its format, in whatever case: `pwg`, `urf`
/// and `pdf` for the three that are known, `bin` for any other.
pub proof fn law_extensions(document_format: Seq<char>)
    ensures
        extension(document_format) == "pwg"@ <==> equal_ignoring_case(
            document_format,
            "image/pwg-raster"@,
        ),
        extension(document_format) == "urf"@ <==> equal_ignoring_case(
            document_format,
            "image/urf"@,
        ),
        extension(document_format) == "pdf"@ <==> equal_ignoring_case(
            document_format,
            "application/pdf"@,
        ),
        extension(document_format) == "bin"@ <==> !equal_ignoring_case(
            document_format,
            "image/pwg-raster"@,
        ) && !equal_ignoring_case(document_format, "image/urf"@) && !equal_ignoring_case(
            document_format,
            "application/pdf"@,
        ),
{
    reveal_strlit("pwg");
    reveal_strlit("urf");
    reveal_strlit("pdf");
    reveal_strlit("bin");
    assert("pwg"@[1] == 'w' && "pdf"@[1] == 'd' && "urf"@[0] == 'u' && "bin"@[0] == 'b' && "pwg"@[0]
        == 'p' && "pdf"@[0] == 'p');
    reveal_strlit("image/pwg-raster");
    reveal_strlit("image/urf");
    reveal_strlit("application/pdf");
    let lower = |c: char| ascii_lower(c);
    let of = document_format.map_values(lower);
    assert("image/pwg-raster"@.map_values(lower).len() == 16);
    assert("image/urf"@.map_values(lower).len() == 9);
    assert("application/pdf"@.map_values(lower).len() == 15);
}

/// A job's stem is its number, which reads back as that and has at least four
/// characters, a dash, and the safe form of its name, or of `job` where it has
/// none.
pub proof fn law_stems_name_number_and_job(job_id: i32, job_name: Option<Seq<char>>)
    ensures
        ({
            let name = safe_name(
                if job_name is Some {
                    job_name->0
                } else {
                    "job"@
                },
            );
            let all = stem(job_id, job_name);
            let number = all.take(all.len() - name.len() - 1);
            &&& all.len() >= 4 + 1 + name.len()
            &&& all[all.len() - name.len() - 1] == '-'
            &&& all.skip(all.len() - name.len()) == name
            &&& job_id >= 0 ==> number_of(number, 10) == job_id
            &&& job_id < 0 ==> number[0] == '-' && number_of(number.skip(1), 10) == -job_id
        }),
{
    reveal_strlit("-");
    let name = safe_name(
        if job_name is Some {
            job_name->0
        } else {
            "job"@
        },
    );
    let all = stem(job_id, job_name);
    let digits = padded_decimal(job_id as int, 4);
    law_integers_read_back(job_id as int, 4);
    assert(all =~= digits + seq!['-'] + name);
    assert(all.take(all.len() - name.len() - 1) =~= digits);
    assert(all.skip(all.len() - name.len()) =~= name);
}

/// The safe form of a name is what stands from its first ASCII letter or digit
/// to its last, up to 40 characters of it, with a dash for any other character;
/// of a name that has none, it is `job`.
pub proof fn law_safe_names_keep_letters_and_digits(name: Seq<char>, first: int, last: int)
    ensures
        (forall|k: int| 0 <= k < name.len() ==> !is_alphanumeric(#[trigger] name[k])) ==> safe_name(
            name,
        ) == "job"@,
        0 <= first <= last < name.len() && is_alphanumeric(name[first]) && is_alphanumeric(
            name[last],
        ) && (forall|k: int|
            0 <= k < name.len() && (k < first || last < k) ==> !is_alphanumeric(
                #[trigger] name[k],
            )) ==> {
            &&& safe_name(name).len() == if last - first + 1 > 40 {
                40
            } else {
                last - first + 1
            }
            &&& forall|k: int|
                0 <= k < safe_name(name).len() ==> #[trigger] safe_name(name)[k] == (
                if is_alphanumeric(name[first + k]) {
                    name[first + k]
                } else {
                    '-'
                })
        },
{
    let drop = |c: char| c == '-';
    let text = cleaned(name);
    law_trimmed_start(text, drop);
    let i = choose|i: int| #[trigger]
        is_trim_start(text, drop, i) && trimmed_start(text, drop) == text.skip(i);
    let rest = text.skip(i);
    law_trimmed_end(rest, drop);
    let j = choose|j: int| #[trigger]
        is_trim_end(rest, drop, j) && trimmed_end(rest, drop) == rest.take(j);
    assert forall|k: int| 0 <= k < name.len() implies (#[trigger] text[k] == '-')
        == !is_alphanumeric(name[k]) by {}
    assert(without_dashes(text) == rest.take(j));
    if forall|k: int| 0 <= k < name.len() ==> !is_alphanumeric(#[trigger] name[k]) {
        if i < text.len() {
            assert(!drop(text[i]));
            assert(!is_alphanumeric(name[i]));
        }
        assert(rest.take(j).len() == 0);
    }
    if 0 <= first <= last < name.len() && is_alphanumeric(name[first]) && is_alphanumeric(
        name[last],
    ) && (forall|k: int|
        0 <= k < name.len() && (k < first || last < k) ==> !is_alphanumeric(#[trigger] name[k])) {
        assert(text[first] != '-' && text[last] != '-');
        if first < i {
            assert(drop(text[first]));
        }
        if i < first {
            assert(!drop(text[i]));
            assert(!is_alphanumeric(name[i]));
        }
        assert(i == first);
        if last - first >= j {
            assert(drop(rest[last - first]));
        }
        if j - 1 > last - first {
            assert(!drop(rest[j - 1]));
            assert(rest[j - 1] == text[first + j - 1]);
            assert(!is_alphanumeric(name[first + j - 1]));
        }
        assert(j == last - first + 1);
        assert forall|k: int| 0 <= k < safe_name(name).len() implies #[trigger] safe_name(name)[k]
            == (if is_alphanumeric(name[first + k]) {
            name[first + k]
        } else {
            '-'
        }) by {
            assert(safe_name(name)[k] == text[first + k]);
        }
    }
}

/// Of a job that was kept are said the path it was planned for, and how many
/// pages of it were decoded; and what was wrong: why it couldn't be decoded, or
/// why a picture of it couldn't be written.
pub proof fn law_kept_jobs_are_reported(plan: Plan, picture_error: Option<Seq<char>>)
    ensures
        ({
            let saved = plan.saved(picture_error);
            &&& saved.path == plan.path@
            &&& plan.preview is None ==> saved.preview_pages == 0 && saved.preview_error is None
            &&& plan.preview matches Some(Ok(pages)) ==> {
                &&& saved.preview_pages == pages@.len()
                &&& saved.preview_error is None <==> picture_error is None
                &&& picture_error is Some ==> saved.preview_error == Some(
                    "failed to write preview PNG: "@ + picture_error->0,
                )
            }
            &&& plan.preview matches Some(Err(error)) ==> saved.preview_pages == 0
                && saved.preview_error == Some(error.message())
        }),
{
}

/// ASCII letters and digits are the ten digits and the 26 letters in either
/// case.
pub proof fn law_alphanumerics(c: char)
    ensures
        is_alphanumeric(c) <==> 48 <= c as int <= 57 || 65 <= c as int <= 90 || 97 <= c as int
            <= 122,
{
}

/// A job is kept in the directory it is planned for, under its stem and with
/// its format's extension; and it is decoded, whatever it holds, if and only if
/// it claims to be PWG-Raster.
pub proof fn law_plans_keep_the_job(
    plan: Plan,
    dir: Seq<char>,
    job_id: i32,
    document_format: Seq<char>,
    job_name: Option<Seq<char>>,
    data: Seq<u8>,
)
    requires
        is_plan(plan, dir, job_id, document_format, job_name, data),
    ensures
        plan.dir@ == dir,
        plan.stem@ == stem(job_id, job_name),
        is_path_in(
            plan.path@,
            dir,
            stem(job_id, job_name) + seq!['.'] + extension(document_format),
        ),
        plan.preview is Some <==> equal_ignoring_case(document_format, "image/pwg-raster"@),
        plan.preview matches Some(Err(error)) ==> decoded(data) == Err::<
            Seq<PageView>,
            DecodeError,
        >(error),
        plan.preview matches Some(Ok(pages)) ==> decoded(data) is Ok
            && decoded(data)->Ok_0.len() == pages@.len() && forall|i: int|
            0 <= i < pages@.len() ==> decoded(data)->Ok_0[i] == (#[trigger] pages@[i])@,
{
    reveal_strlit(".");
    assert("."@ =~= seq!['.']);
    if let Some(Ok(pages)) = plan.preview {
        assert(decoded(data)->Ok_0 == page_views(pages@));
    }
}

/// The picture of a page is named by the stem and the page's number, which
/// reads back as that.
pub proof fn law_pictures_are_numbered(stem: Seq<char>, index: nat)
    ensures
        ({
            let name = picture_name(stem, index);
            let digits = name.subrange(stem.len() as int + 5, name.len() - 4);
            &&& stem.is_prefix_of(name)
            &&& name.subrange(stem.len() as int, stem.len() as int + 5) == "-page"@
            &&& number_of(digits, 10) == index
            &&& name.skip(name.len() - 4) == ".png"@
        }),
{
    reveal_strlit("-page");
    reveal_strlit(".png");
    law_decimals_read_back(index);
    let name = picture_name(stem, index);
    assert(name.subrange(stem.len() as int + 5, name.len() - 4) =~= decimal(index));
    assert(name.subrange(stem.len() as int, stem.len() as int + 5) =~= "-page"@);
    assert(name.skip(name.len() - 4) =~= ".png"@);
}

/// What is said of a kept job is seen with all that it holds.
pub proof fn law_saved_jobs_are_seen_whole(job: SavedJob)
    ensures
        job@.path == job.path@,
        job@.preview_pages == job.preview_pages,
        job.preview_error is Some ==> job@.preview_error == Some(job.preview_error->0@),
        job.preview_error is None ==> job@.preview_error is None,
{
}

} // verus!
