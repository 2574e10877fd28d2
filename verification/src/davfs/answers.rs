//! The answers of the WebDAV service.

use crate::directory;
use crate::directory::{FileEntry, FileModel};
use crate::text;
use crate::text::Margin;
use vstd::prelude::*;

verus! {

/// The body of an answer.
pub enum Body {
    Empty,
    Text(String),
    Bytes(Vec<u8>),
}

/// An answer to a request.
pub struct DavResponse {
    pub status: u16,
    pub headers: Vec<(String, String)>,
    pub body: Body,
}

/// The body of an answer as contracts see it.
pub enum BodyModel {
    Empty,
    Text(Seq<char>),
    Bytes(Seq<u8>),
}

/// An answer as contracts see it.
#[verifier::ext_equal]
pub struct ResponseModel {
    pub status: u16,
    pub headers: Seq<(Seq<char>, Seq<char>)>,
    pub body: BodyModel,
}

impl View for Body {
    type V = BodyModel;

    open spec fn view(&self) -> BodyModel {
        match *self {
            Body::Empty => BodyModel::Empty,
            Body::Text(s) => BodyModel::Text(s@),
            Body::Bytes(b) => BodyModel::Bytes(b@),
        }
    }
}

/// The texts of headers.
pub open spec fn header_texts(v: Seq<(String, String)>) -> Seq<(Seq<char>, Seq<char>)> {
    Seq::new(v.len(), |i: int| (v[i].0@, v[i].1@))
}

impl View for DavResponse {
    type V = ResponseModel;

    open spec fn view(&self) -> ResponseModel {
        ResponseModel {
            status: self.status,
            headers: header_texts(self.headers@),
            body: self.body@,
        }
    }
}

/// The methods that the service allows.
pub open spec fn allowed_methods() -> Seq<char> {
    "OPTIONS, PROPFIND, GET, PUT, DELETE, MKCOL, MOVE"@
}

/// An answer with a text and no headers.
pub open spec fn plain_answer(status: u16, body: Seq<char>) -> ResponseModel {
    ResponseModel { status, headers: Seq::empty(), body: BodyModel::Text(body) }
}

/// An answer with an XML document.
pub open spec fn xml_answer(document: Seq<char>) -> ResponseModel {
    ResponseModel {
        status: 207,
        headers: seq![("Content-Type"@, "application/xml; charset=utf-8"@)],
        body: BodyModel::Text(document),
    }
}

/// Answers with a text and no headers.
pub fn plain_response(status: u16, body: String) -> (r: DavResponse)
    ensures
        r@ == plain_answer(status, body@),
{
    let r = DavResponse { status, headers: Vec::new(), body: Body::Text(body) };
    assert(r@.headers =~= Seq::<(Seq<char>, Seq<char>)>::empty());
    r
}

fn xml_response(document: String) -> (r: DavResponse)
    ensures
        r@ == xml_answer(document@),
{
    let mut headers: Vec<(String, String)> = Vec::new();
    headers.push(("Content-Type".to_owned(), "application/xml; charset=utf-8".to_owned()));
    let r = DavResponse { status: 207, headers, body: Body::Text(document) };
    assert(r@.headers =~= seq![("Content-Type"@, "application/xml; charset=utf-8"@)]);
    r
}

/// The answer to a question for the service's features.
pub open spec fn options_answer() -> ResponseModel {
    ResponseModel {
        status: 200,
        headers: seq![
            ("DAV"@, "1, 2"@),
            ("Allow"@, allowed_methods()),
            ("MS-Author-Via"@, "DAV"@),
        ],
        body: BodyModel::Empty,
    }
}

/// Answers a question for the service's features.
pub fn dav_options() -> (r: DavResponse)
    ensures
        r@ == options_answer(),
{
    let mut headers: Vec<(String, String)> = Vec::new();
    headers.push(("DAV".to_owned(), "1, 2".to_owned()));
    headers.push(
        ("Allow".to_owned(), "OPTIONS, PROPFIND, GET, PUT, DELETE, MKCOL, MOVE".to_owned()),
    );
    headers.push(("MS-Author-Via".to_owned(), "DAV".to_owned()));
    let r = DavResponse { status: 200, headers, body: Body::Empty };
    assert(r@.headers =~= seq![
        ("DAV"@, "1, 2"@),
        ("Allow"@, allowed_methods()),
        ("MS-Author-Via"@, "DAV"@),
    ]);
    r
}

/// Refuses a method that the service does not know.
pub fn dav_refuse() -> (r: DavResponse)
    ensures
        r@ == (ResponseModel {
            status: 405,
            headers: seq![("Allow"@, allowed_methods())],
            body: BodyModel::Empty,
        }),
{
    let mut headers: Vec<(String, String)> = Vec::new();
    headers.push(
        ("Allow".to_owned(), "OPTIONS, PROPFIND, GET, PUT, DELETE, MKCOL, MOVE".to_owned()),
    );
    let r = DavResponse { status: 405, headers, body: Body::Empty };
    assert(r@.headers =~= seq![("Allow"@, allowed_methods())]);
    r
}

/// The answer to a method that the root does not take.
pub open spec fn root_refusal() -> ResponseModel {
    ResponseModel { status: 405, headers: Seq::empty(), body: BodyModel::Empty }
}

/// Refuses a method that the root does not take.
pub fn dav_root_refuse() -> (r: DavResponse)
    ensures
        r@ == root_refusal(),
{
    let r = DavResponse { status: 405, headers: Vec::new(), body: Body::Empty };
    assert(r@.headers =~= Seq::<(Seq<char>, Seq<char>)>::empty());
    r
}

/// Answers the creation of a directory: directories come into being with their files.
pub fn dav_mkcol() -> (r: DavResponse)
    ensures
        r@ == plain_answer(405, "Directories are auto-created"@),
{
    plain_response(405, "Directories are auto-created".to_owned())
}

/// Answers the renaming of a file, which the service does not offer.
pub fn dav_move() -> (r: DavResponse)
    ensures
        r@ == plain_answer(501, "MOVE not yet implemented"@),
{
    plain_response(501, "MOVE not yet implemented".to_owned())
}

/// Answers for a file that is not there.
pub fn file_not_found() -> (r: DavResponse)
    ensures
        r@ == plain_answer(404, "File not found"@),
{
    plain_response(404, "File not found".to_owned())
}

/// The answer to a download.
pub open spec fn download_answer(filename: Seq<char>, read: Result<Seq<u8>, Seq<char>>) -> ResponseModel {
    match read {
        Ok(data) => ResponseModel {
            status: 200,
            headers: seq![
                ("Content-Type"@, "application/octet-stream"@),
                ("Content-Disposition"@, "attachment; filename=\""@ + filename + "\""@),
                ("Content-Length"@, text::numeral(data.len())),
            ],
            body: BodyModel::Bytes(data),
        },
        Err(e) => plain_answer(500, "File reconstruction failed: "@ + e),
    }
}

/// Answers a download of the file `filename`, given how its reading ended.
pub fn download_response(filename: &str, read: Result<Vec<u8>, String>) -> (r: DavResponse)
    ensures
        r@ == download_answer(
            filename@,
            match read {
                Ok(data) => Ok(data@),
                Err(e) => Err(e@),
            },
        ),
        match read {
            Ok(data) => {
                &&& r.status == 200
                &&& r.body matches Body::Bytes(sent) && sent@ == data@
                &&& exists|i: int|
                    0 <= i < r.headers@.len() && (#[trigger] r.headers@[i]).0@ == "Content-Length"@
                        && r.headers@[i].1@ == text::numeral(data@.len())
            },
            Err(e) => r.status == 500 && (r.body matches Body::Text(sent) && sent@
                == "File reconstruction failed: "@ + e@),
        },
{
    match read {
        Ok(data) => {
            let mut headers: Vec<(String, String)> = Vec::new();
            headers.push(("Content-Type".to_owned(), "application/octet-stream".to_owned()));
            let mut disposition = text::concat("attachment; filename=\"", filename);
            disposition.append("\"");
            headers.push(("Content-Disposition".to_owned(), disposition));
            headers.push(("Content-Length".to_owned(), text::decimal(data.len() as u64)));
            let ghost expected = seq![
                ("Content-Type"@, "application/octet-stream"@),
                ("Content-Disposition"@, "attachment; filename=\""@ + filename@ + "\""@),
                ("Content-Length"@, text::numeral(data@.len())),
            ];
            let r = DavResponse { status: 200, headers, body: Body::Bytes(data) };
            assert(r@.headers =~= expected);
            assert(r.headers@[2].0@ == "Content-Length"@);
            r
        },
        Err(e) => plain_response(500, text::concat("File reconstruction failed: ", e.as_str())),
    }
}

/// The answer to an upload.
pub open spec fn upload_answer(stored: Result<(), Seq<char>>) -> ResponseModel {
    match stored {
        Ok(()) => plain_answer(201, "File uploaded"@),
        Err(e) => plain_answer(500, "File storage failed: "@ + e),
    }
}

/// Answers an upload, given how the storing ended.
pub fn upload_response(stored: Result<(), String>) -> (r: DavResponse)
    ensures
        r@ == upload_answer(
            match stored {
                Ok(()) => Ok(()),
                Err(e) => Err(e@),
            },
        ),
        match stored {
            Ok(()) => r.status == 201,
            Err(e) => r.status == 500 && (r.body matches Body::Text(sent) && sent@
                == "File storage failed: "@ + e@),
        },
{
    match stored {
        Ok(()) => plain_response(201, "File uploaded".to_owned()),
        Err(e) => plain_response(500, text::concat("File storage failed: ", e.as_str())),
    }
}

// ---------- Property listings ----------

/// Texts, one after the other.
pub open spec fn run(parts: Seq<Seq<char>>) -> Seq<char>
    decreases parts.len(),
{
    if parts.len() == 0 {
        Seq::empty()
    } else {
        run(parts.drop_last()) + parts.last()
    }
}

/// The entry of a collection in the listing of the root.
pub open spec fn collection_entry(href: Seq<char>, name: Seq<char>, now: Seq<char>) -> Seq<char> {
    "<D:response><D:href>/dav/"@ + href + "</D:href><D:propstat><D:prop>"@ + "<D:displayname>"@
        + name + "</D:displayname>"@ + "<D:resourcetype><D:collection/></D:resourcetype>"@
        + "<D:getcontenttype>httpd/unix-directory</D:getcontenttype>"@ + "<D:getlastmodified>"@
        + now + "</D:getlastmodified>"@
        + "</D:prop><D:status>HTTP/1.1 200 OK</D:status></D:propstat></D:response>"@
}

/// The entry of a file in the listing of the root.
pub open spec fn root_file_entry(file: FileModel, now: Seq<char>) -> Seq<char> {
    "<D:response><D:href>/dav/"@ + file.filename + "</D:href><D:propstat><D:prop>"@
        + "<D:displayname>"@ + file.filename + "</D:displayname>"@ + "<D:resourcetype/>"@
        + "<D:getcontentlength>"@ + text::numeral(file.size as nat) + "</D:getcontentlength>"@
        + "<D:getcontenttype>application/octet-stream</D:getcontenttype>"@
        + "<D:getlastmodified>"@ + now + "</D:getlastmodified>"@
        + "</D:prop><D:status>HTTP/1.1 200 OK</D:status></D:propstat></D:response>"@
}

/// The listing of the root: itself, its directories and its files.
pub open spec fn root_listing(
    dirs: Seq<Seq<char>>,
    files: Seq<FileModel>,
    now: Seq<char>,
) -> Seq<char> {
    "<?xml version=\"1.0\" encoding=\"utf-8\"?>"@ + "<D:multistatus xmlns:D=\"DAV:\">"@
        + collection_entry(Seq::empty(), "GHOST NAS"@, now) + run(
        Seq::new(dirs.len(), |i: int| collection_entry(dirs[i] + "/"@, dirs[i], now)),
    ) + run(Seq::new(files.len(), |i: int| root_file_entry(files[i], now))) + "</D:multistatus>"@
}

fn write_collection(href: &str, name: &str, now: &str) -> (r: String)
    ensures
        r@ == collection_entry(href@, name@, now@),
{
    let mut xml = text::concat("<D:response><D:href>/dav/", href);
    xml.append("</D:href><D:propstat><D:prop>");
    xml.append("<D:displayname>");
    xml.append(name);
    xml.append("</D:displayname>");
    xml.append("<D:resourcetype><D:collection/></D:resourcetype>");
    xml.append("<D:getcontenttype>httpd/unix-directory</D:getcontenttype>");
    xml.append("<D:getlastmodified>");
    xml.append(now);
    xml.append("</D:getlastmodified>");
    xml.append("</D:prop><D:status>HTTP/1.1 200 OK</D:status></D:propstat></D:response>");
    xml
}

fn write_root_file(file: &FileEntry, now: &str) -> (r: String)
    ensures
        r@ == root_file_entry(file@, now@),
{
    let mut xml = text::concat("<D:response><D:href>/dav/", file.filename.as_str());
    xml.append("</D:href><D:propstat><D:prop>");
    xml.append("<D:displayname>");
    xml.append(file.filename.as_str());
    xml.append("</D:displayname>");
    xml.append("<D:resourcetype/>");
    xml.append("<D:getcontentlength>");
    xml.append(text::decimal(file.size).as_str());
    xml.append("</D:getcontentlength>");
    xml.append("<D:getcontenttype>application/octet-stream</D:getcontenttype>");
    xml.append("<D:getlastmodified>");
    xml.append(now);
    xml.append("</D:getlastmodified>");
    xml.append("</D:prop><D:status>HTTP/1.1 200 OK</D:status></D:propstat></D:response>");
    xml
}

/// Answers with the listing of the root at the time `now`.
pub fn root_response(dirs: &Vec<String>, files: &Vec<FileEntry>, now: &str) -> (r: DavResponse)
    ensures
        r@ == xml_answer(
            root_listing(text::texts(dirs@), directory::file_models(files@), now@),
        ),
{
    let ghost names = text::texts(dirs@);
    let ghost models = directory::file_models(files@);
    let ghost dir_entries = Seq::new(
        names.len(),
        |i: int| collection_entry(names[i] + "/"@, names[i], now@),
    );
    let ghost file_entries = Seq::new(models.len(), |i: int| root_file_entry(models[i], now@));
    let mut xml = "<?xml version=\"1.0\" encoding=\"utf-8\"?>".to_owned();
    xml.append("<D:multistatus xmlns:D=\"DAV:\">");
    let nowhere = String::new();
    assert(nowhere@ =~= Seq::<char>::empty());
    xml.append(write_collection(nowhere.as_str(), "GHOST NAS", now).as_str());
    let ghost head = xml@;
    assert(head =~= head + run(dir_entries.take(0)));
    let mut i: usize = 0;
    while i < dirs.len()
        invariant
            i <= dirs@.len(),
            names == text::texts(dirs@),
            dir_entries == Seq::new(
                names.len(),
                |i: int| collection_entry(names[i] + "/"@, names[i], now@),
            ),
            xml@ == head + run(dir_entries.take(i as int)),
        decreases dirs@.len() - i,
    {
        assert(dir_entries.take(i + 1).drop_last() =~= dir_entries.take(i as int));
        let href = text::concat(dirs[i].as_str(), "/");
        xml.append(write_collection(href.as_str(), dirs[i].as_str(), now).as_str());
        i += 1;
        assert(xml@ =~= head + run(dir_entries.take(i as int)));
    }
    assert(dir_entries.take(i as int) =~= dir_entries);
    let ghost middle = xml@;
    assert(middle =~= middle + run(file_entries.take(0)));
    let mut k: usize = 0;
    while k < files.len()
        invariant
            k <= files@.len(),
            models == directory::file_models(files@),
            file_entries == Seq::new(models.len(), |i: int| root_file_entry(models[i], now@)),
            xml@ == middle + run(file_entries.take(k as int)),
        decreases files@.len() - k,
    {
        assert(file_entries.take(k + 1).drop_last() =~= file_entries.take(k as int));
        xml.append(write_root_file(&files[k], now).as_str());
        k += 1;
        assert(xml@ =~= middle + run(file_entries.take(k as int)));
    }
    assert(file_entries.take(k as int) =~= file_entries);
    xml.append("</D:multistatus>");
    xml_response(xml)
}

/// The properties of the file at `path`.
pub open spec fn file_listing(path: Seq<char>, file: FileModel) -> Seq<char> {
    "<?xml version=\"1.0\" encoding=\"utf-8\"?>\n<D:multistatus xmlns:D=\"DAV:\">\n  <D:response>\n    <D:href>/dav/"@
        + path
        + "</D:href>\n    <D:propstat>\n      <D:prop>\n        <D:displayname>"@
        + file.filename
        + "</D:displayname>\n        <D:resourcetype/>\n        <D:getcontentlength>"@
        + text::numeral(file.size as nat)
        + "</D:getcontentlength>\n        <D:getcontenttype>application/octet-stream</D:getcontenttype>\n      </D:prop>\n      <D:status>HTTP/1.1 200 OK</D:status>\n    </D:propstat>\n  </D:response>\n</D:multistatus>"@
}

/// Answers with the properties of the file at `path`.
pub fn file_response(path: &str, file: &FileEntry) -> (r: DavResponse)
    ensures
        r@ == xml_answer(file_listing(path@, file@)),
{
    let mut xml = text::concat(
        "<?xml version=\"1.0\" encoding=\"utf-8\"?>\n<D:multistatus xmlns:D=\"DAV:\">\n  <D:response>\n    <D:href>/dav/",
        path,
    );
    xml.append(
        "</D:href>\n    <D:propstat>\n      <D:prop>\n        <D:displayname>",
    );
    xml.append(file.filename.as_str());
    xml.append(
        "</D:displayname>\n        <D:resourcetype/>\n        <D:getcontentlength>",
    );
    xml.append(text::decimal(file.size).as_str());
    xml.append(
        "</D:getcontentlength>\n        <D:getcontenttype>application/octet-stream</D:getcontenttype>\n      </D:prop>\n      <D:status>HTTP/1.1 200 OK</D:status>\n    </D:propstat>\n  </D:response>\n</D:multistatus>",
    );
    xml_response(xml)
}

/// Where the directory at `path` lies below `/dav/`: its path without slashes at
/// either end, with one behind it; the root lies at no path.
pub open spec fn folder_href(path: Seq<char>) -> Seq<char> {
    if directory::is_root(path) {
        Seq::empty()
    } else {
        directory::normal(path) + "/"@
    }
}

/// The entry of a file in the listing of the directory that lies at `folder`.
pub open spec fn dir_file_entry(folder: Seq<char>, file: FileModel) -> Seq<char> {
    "<D:response><D:href>/dav/"@ + folder + file.filename
        + "</D:href><D:propstat><D:prop><D:displayname>"@ + file.filename
        + "</D:displayname><D:resourcetype/><D:getcontentlength>"@ + text::numeral(
        file.size as nat,
    )
        + "</D:getcontentlength></D:prop><D:status>HTTP/1.1 200 OK</D:status></D:propstat></D:response>"@
}

/// The listing of the directory at `path`: itself and its files.
pub open spec fn dir_listing(path: Seq<char>, files: Seq<FileModel>) -> Seq<char> {
    "<?xml version=\"1.0\" encoding=\"utf-8\"?><D:multistatus xmlns:D=\"DAV:\">"@
        + "<D:response><D:href>/dav/"@ + folder_href(path)
        + "</D:href><D:propstat><D:prop><D:displayname>"@ + path
        + "</D:displayname><D:resourcetype><D:collection/></D:resourcetype></D:prop><D:status>HTTP/1.1 200 OK</D:status></D:propstat></D:response>"@
        + run(Seq::new(files.len(), |i: int| dir_file_entry(folder_href(path), files[i])))
        + "</D:multistatus>"@
}

fn write_folder_href(path: &str) -> (r: String)
    ensures
        r@ == folder_href(path@),
{
    let mut folder = text::trim(path, Margin::Slash);
    if folder.as_str().unicode_len() == 0 {
        assert(folder@ =~= Seq::<char>::empty());
    } else {
        folder.append("/");
    }
    folder
}

fn write_dir_file(folder: &str, file: &FileEntry) -> (r: String)
    ensures
        r@ == dir_file_entry(folder@, file@),
{
    let mut xml = text::concat("<D:response><D:href>/dav/", folder);
    xml.append(file.filename.as_str());
    xml.append("</D:href><D:propstat><D:prop><D:displayname>");
    xml.append(file.filename.as_str());
    xml.append("</D:displayname><D:resourcetype/><D:getcontentlength>");
    xml.append(text::decimal(file.size).as_str());
    xml.append(
        "</D:getcontentlength></D:prop><D:status>HTTP/1.1 200 OK</D:status></D:propstat></D:response>",
    );
    xml
}

/// Answers with the listing of the directory at `path`.
pub fn dir_response(path: &str, files: &Vec<FileEntry>) -> (r: DavResponse)
    ensures
        r@ == xml_answer(dir_listing(path@, directory::file_models(files@))),
{
    let ghost models = directory::file_models(files@);
    let folder = write_folder_href(path);
    let ghost entries = Seq::new(models.len(), |i: int| dir_file_entry(folder@, models[i]));
    let mut xml = "<?xml version=\"1.0\" encoding=\"utf-8\"?><D:multistatus xmlns:D=\"DAV:\">".to_owned();
    xml.append("<D:response><D:href>/dav/");
    xml.append(folder.as_str());
    xml.append("</D:href><D:propstat><D:prop><D:displayname>");
    xml.append(path);
    xml.append(
        "</D:displayname><D:resourcetype><D:collection/></D:resourcetype></D:prop><D:status>HTTP/1.1 200 OK</D:status></D:propstat></D:response>",
    );
    let ghost head = xml@;
    assert(head =~= head + run(entries.take(0)));
    let mut i: usize = 0;
    while i < files.len()
        invariant
            i <= files@.len(),
            models == directory::file_models(files@),
            entries == Seq::new(models.len(), |i: int| dir_file_entry(folder@, models[i])),
            xml@ == head + run(entries.take(i as int)),
        decreases files@.len() - i,
    {
        assert(entries.take(i + 1).drop_last() =~= entries.take(i as int));
        xml.append(write_dir_file(folder.as_str(), &files[i]).as_str());
        i += 1;
        assert(xml@ =~= head + run(entries.take(i as int)));
    }
    assert(entries.take(i as int) =~= entries);
    xml.append("</D:multistatus>");
    xml_response(xml)
}

} // verus!
