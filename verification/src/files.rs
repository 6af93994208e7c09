//! The files that a builder returns, and the lists of texts beside them.
use vstd::prelude::*;
use crate::json::{string_at, Json};
#[allow(unused_imports)]
use crate::json::{items_view, JsonView};
use crate::text::{begins_with, contains_dot_dot, has_char};
#[allow(unused_imports)]
use crate::text::{has_dot_dot, texts};

verus! {

/// A generated file: its path below the output directory, and its body.
pub struct File {
    pub path: String,
    pub body: String,
}

/// What a [`File`] holds.
pub struct FileView {
    pub path: Seq<char>,
    pub body: Seq<char>,
}

impl View for File {
    type V = FileView;

    open spec fn view(&self) -> FileView {
        FileView { path: self.path@, body: self.body@ }
    }
}

/// What a list of files holds.
pub open spec fn files_view(files: Seq<File>) -> Seq<FileView> {
    files.map_values(|file: File| file@)
}

/// What a reading of files comes to.
pub open spec fn files_result(result: Result<Vec<File>, String>) -> Result<
    Seq<FileView>,
    Seq<char>,
> {
    match result {
        Ok(files) => Ok(files_view(files@)),
        Err(error) => Err(error@),
    }
}

/// What a reading of texts comes to.
pub open spec fn texts_result(result: Result<Vec<String>, String>) -> Result<
    Seq<Seq<char>>,
    Seq<char>,
> {
    match result {
        Ok(strings) => Ok(texts(strings@)),
        Err(error) => Err(error@),
    }
}

/// Whether a path may lead out of the directory that it is taken in: it climbs,
/// starts at the root, or holds a character that ends it early.
pub open spec fn escapes(path: Seq<char>) -> bool {
    has_dot_dot(path) || "/"@.is_prefix_of(path) || path.contains('\0')
}

/// The complaint about a path that escapes.
pub open spec fn escape_complaint(path: Seq<char>) -> Seq<char> {
    "File path \""@ + path + "\" escapes the output directory."@
}

/// What is wrong with a file as it is sent, if anything is. It needs a path, a
/// text that is not empty, and a body, a text; and its path must not escape.
pub open spec fn file_fault(item: JsonView, error: Seq<char>) -> Option<Seq<char>> {
    if item.at("path"@).string().len() == 0 || !(item.at("body"@) is Text) {
        Some(error)
    } else if escapes(item.at("path"@).string()) {
        Some(escape_complaint(item.at("path"@).string()))
    } else {
        None
    }
}

/// The file that is sent.
pub open spec fn file_sent(item: JsonView) -> FileView {
    FileView { path: item.at("path"@).string(), body: item.at("body"@).string() }
}

/// The files that are sent, or what is wrong with the first faulty one.
pub open spec fn files_sent(items: Seq<JsonView>, error: Seq<char>) -> Result<
    Seq<FileView>,
    Seq<char>,
>
    decreases items.len(),
{
    if items.len() == 0 {
        Ok(Seq::empty())
    } else {
        match files_sent(items.drop_last(), error) {
            Err(fault) => Err(fault),
            Ok(files) => match file_fault(items.last(), error) {
                Some(fault) => Err(fault),
                None => Ok(files.push(file_sent(items.last()))),
            },
        }
    }
}

/// The files of a list of files, or what is wrong with it.
pub open spec fn files_read(value: JsonView, error: Seq<char>) -> Result<Seq<FileView>, Seq<char>> {
    match value {
        JsonView::List(items) => files_sent(items, error),
        _ => Err(error),
    }
}

/// Whether all the values are texts.
pub open spec fn all_texts(items: Seq<JsonView>) -> bool {
    forall|i: int| 0 <= i < items.len() ==> #[trigger] items[i] is Text
}

/// The complaint about what should be a list of texts.
pub open spec fn list_complaint(name: Seq<char>) -> Seq<char> {
    "\""@ + name + "\" must be a list of strings."@
}

/// The texts of a list of texts, none where there is no list, or what is wrong
/// with it.
pub open spec fn strings_read(value: JsonView, name: Seq<char>) -> Result<
    Seq<Seq<char>>,
    Seq<char>,
> {
    match value {
        JsonView::Null => Ok(Seq::empty()),
        JsonView::List(items) => if all_texts(items) {
            Ok(items.map_values(|item: JsonView| item.string()))
        } else {
            Err(list_complaint(name))
        },
        _ => Err(list_complaint(name)),
    }
}

proof fn a_fault_stays(items: Seq<JsonView>, n: int, error: Seq<char>)
    requires
        0 <= n <= items.len(),
        files_sent(items.take(n), error) is Err,
    ensures
        files_sent(items, error) == files_sent(items.take(n), error),
    decreases items.len(),
{
    if n < items.len() {
        assert(items.drop_last().take(n) =~= items.take(n));
        a_fault_stays(items.drop_last(), n, error);
    } else {
        assert(items.take(n) =~= items);
    }
}

/// Whether a value is a text.
fn is_text(value: Option<&Json>) -> (yes: bool)
    ensures
        yes == (value is Some && value->0@ is Text),
{
    match value {
        Some(Json::Text(_)) => true,
        _ => false,
    }
}

/// Reads one file as it is sent.
fn file(item: &Json, error: &str) -> (result: Result<File, String>)
    ensures
        match file_fault(item@, error@) {
            Some(fault) => result is Err && result->Err_0@ == fault,
            None => result is Ok && result->Ok_0@ == file_sent(item@),
        },
{
    let path = string_at(item, "path");
    if path.as_str().is_empty() || !is_text(item.get("body")) {
        return Err(error.to_owned());
    }
    if contains_dot_dot(path.as_str()) || begins_with(path.as_str(), "/") || has_char(
        path.as_str(),
        '\0',
    ) {
        let mut fault = "File path \"".to_owned();
        fault.append(path.as_str());
        fault.append("\" escapes the output directory.");
        return Err(fault);
    }
    Ok(File { path, body: string_at(item, "body") })
}

/// Reads a list of files as it is sent.
pub fn files(v: &Json, error: &str) -> (result: Result<Vec<File>, String>)
    ensures
        files_result(result) == files_read(v@, error@),
{
    match v {
        Json::List(items) => {
            let ghost all = items_view(items@);
            let mut read: Vec<File> = Vec::new();
            let mut i: usize = 0;
            assert(files_view(read@) =~= Seq::empty());
            while i < items.len()
                invariant
                    i <= items@.len(),
                    all == items_view(items@),
                    v@ == JsonView::List(all),
                    files_sent(all.take(i as int), error@) == Ok::<Seq<FileView>, Seq<char>>(
                        files_view(read@),
                    ),
                decreases items@.len() - i,
            {
                assert(all.take(i + 1).drop_last() =~= all.take(i as int));
                assert(all.take(i + 1).last() == items@[i as int]@);
                match file(&items[i], error) {
                    Ok(file) => {
                        let ghost before = files_view(read@);
                        read.push(file);
                        assert(files_view(read@) =~= before.push(file@));
                    },
                    Err(fault) => {
                        proof {
                            a_fault_stays(all, i + 1, error@);
                        }
                        return Err(fault);
                    },
                }
                i += 1;
            }
            assert(all.take(i as int) =~= all);
            Ok(read)
        },
        _ => Err(error.to_owned()),
    }
}

/// Reads a list of texts; a missing one is empty.
pub fn strings(v: &Json, name: &str) -> (result: Result<Vec<String>, String>)
    ensures
        texts_result(result) == strings_read(v@, name@),
{
    let mut complaint = "\"".to_owned();
    complaint.append(name);
    complaint.append("\" must be a list of strings.");
    match v {
        Json::Null => {
            let none: Vec<String> = Vec::new();
            assert(texts(none@) =~= Seq::empty());
            Ok(none)
        },
        Json::List(items) => {
            let ghost all = items_view(items@);
            let mut read: Vec<String> = Vec::new();
            let mut i: usize = 0;
            while i < items.len()
                invariant
                    i <= items@.len(),
                    all == items_view(items@),
                    v@ == JsonView::List(all),
                    complaint@ == list_complaint(name@),
                    read@.len() == i,
                    forall|j: int|
                        0 <= j < i ==> #[trigger] all[j] is Text && read@[j]@ == all[j].string(),
                decreases items@.len() - i,
            {
                assert(all[i as int] == items@[i as int]@);
                match &items[i] {
                    Json::Text(text) => {
                        read.push(text.clone());
                    },
                    _ => {
                        return Err(complaint);
                    },
                }
                i += 1;
            }
            assert(texts(read@) =~= all.map_values(|item: JsonView| item.string()));
            Ok(read)
        },
        _ => Err(complaint),
    }
}

/// Whether each file has a path, and none that escapes.
pub open spec fn stay_inside(files: Seq<FileView>) -> bool {
    forall|i: int|
        0 <= i < files.len() ==> (#[trigger] files[i]).path.len() > 0 && !escapes(files[i].path)
}

/// No file that is read has a path that escapes, or none at all.
pub proof fn files_read_stay_inside(items: Seq<JsonView>, error: Seq<char>)
    ensures
        files_sent(items, error) is Ok ==> {
            let files = files_sent(items, error)->Ok_0;
            &&& files.len() == items.len()
            &&& stay_inside(files)
        },
    decreases items.len(),
{
    if items.len() > 0 {
        files_read_stay_inside(items.drop_last(), error);
    }
}

} // verus!
