//! The state of the analysis window: which panes are shown, the files that
//! were dropped, and the text of the last analysed message.

use crate::message::{decode_text, fields_of, message_of, parse_text, text_of, HeaderField, Message,
    ParsedMessage,};
use vstd::utf8::{decode_utf8, valid_utf8};
use vstd::prelude::*;

verus! {

/// A file dropped onto the window, as the window system reports it.
#[derive(Debug, PartialEq, Eq)]
pub struct DroppedFile {
    pub path: Option<String>,
    pub name: String,
    pub mime: String,
    pub bytes: Option<Vec<u8>>,
}

/// A file held over the window before it is dropped.
#[derive(Debug, PartialEq, Eq)]
pub struct HoveredFile {
    pub path: Option<String>,
    pub mime: String,
}

/// The panes that the window can show.
#[derive(Clone, Copy, Debug, PartialEq, Eq)]
pub enum Pane {
    Body,
    Html,
    Headers,
    Recipients,
    Senders,
}

/// The state of the analysis window.
#[derive(Debug)]
pub struct PeakApp {
    pub dropped_files: Vec<DroppedFile>,
    pub filename: String,
    pub nothing_loaded: bool,
    pub email_raw: String,
    pub email_body: String,
    pub email_body_visible: bool,
    pub email_html_visible: bool,
    pub headers: Vec<HeaderField>,
    pub headers_visible: bool,
    pub recipients: String,
    pub recipients_visible: bool,
    pub senders: String,
    pub senders_visible: bool,
}

/// The text analysed when no file has been dropped.
pub open spec fn no_file_text() -> Seq<char> {
    "No email file loaded"@
}

/// The body pane's placeholder.
pub open spec fn no_body_text() -> Seq<char> {
    "Failed to parse body"@
}

/// The sender pane's placeholder.
pub open spec fn no_sender_text() -> Seq<char> {
    "Failed to parse sender"@
}

/// The recipient pane's placeholder.
pub open spec fn no_recipient_text() -> Seq<char> {
    "Failed to parse recipient"@
}

/// A value as the window shows it: the value itself, or `placeholder` where
/// there is none.
pub open spec fn shown(o: Option<Seq<char>>, placeholder: Seq<char>) -> Seq<char> {
    match o {
        Some(v) => v,
        None => placeholder,
    }
}

/// Whether a dropped file says what it is: it has a path or a name.
pub open spec fn names_file(f: DroppedFile) -> bool {
    f.path is Some || f.name@.len() > 0
}

/// The name under which a dropped file is shown.
pub open spec fn label_of(f: DroppedFile) -> Seq<char> {
    match f.path {
        Some(p) => p@,
        None => if f.name@.len() > 0 {
            f.name@
        } else {
            "???"@
        },
    }
}

/// The text of a dropped file: its bytes decoded, none where they are not
/// UTF-8, and the stand-in text where the file came without bytes.
pub open spec fn raw_text_of(f: DroppedFile) -> Option<Seq<char>> {
    match f.bytes {
        None => Some(no_file_text()),
        Some(b) => if valid_utf8(b@) {
            Some(decode_utf8(b@))
        } else {
            None
        },
    }
}

/// The name under which a dropped file is shown: its path, else its name,
/// else `???`.
pub fn file_label(f: &DroppedFile) -> (r: String)
    ensures
        r@ == label_of(*f),
{
    match &f.path {
        Some(p) => p.clone(),
        None => if f.name.as_str().unicode_len() > 0 {
            f.name.clone()
        } else {
            String::from_str("???")
        },
    }
}

/// The text that a dropped file holds, or none where its bytes are not UTF-8.
pub fn file_text(f: &DroppedFile) -> (r: Option<String>)
    ensures
        text_of(r) == raw_text_of(*f),
{
    match &f.bytes {
        None => Some(String::from_str("No email file loaded")),
        Some(b) => match decode_text(b.as_slice()) {
            Some(t) => Some(String::from_str(t)),
            None => None,
        },
    }
}

/// The character of the decimal digit `d`.
pub open spec fn digit_char(d: nat) -> char {
    seq!['0', '1', '2', '3', '4', '5', '6', '7', '8', '9'][d as int]
}

/// The decimal digits of `n`, without leading zeros.
pub open spec fn decimal_of(n: nat) -> Seq<char>
    decreases n,
{
    if n < 10 {
        seq![digit_char(n)]
    } else {
        decimal_of(n / 10).push(digit_char(n % 10))
    }
}

/// Relies on the `Display` of `usize`: the decimal digits of `n` without
/// leading zeros.
#[verifier::external_body]
fn decimal(n: usize) -> (r: String)
    ensures
        r@ == decimal_of(n as nat),
{
    format!("{}", n)
}

/// The line that lists a dropped file: its label, then its type and size
/// where they are known.
pub open spec fn summary_of(f: DroppedFile) -> Seq<char> {
    let kind = "type: "@ + f.mime@;
    let size = match f.bytes {
        Some(b) => decimal_of(b@.len()) + " bytes"@,
        None => seq![],
    };
    if f.mime@.len() > 0 && f.bytes is Some {
        label_of(f) + " ("@ + kind + ", "@ + size + ")"@
    } else if f.mime@.len() > 0 {
        label_of(f) + " ("@ + kind + ")"@
    } else if f.bytes is Some {
        label_of(f) + " ("@ + size + ")"@
    } else {
        label_of(f)
    }
}

/// The line that lists a dropped file, as `summary_of` gives it.
pub fn file_summary(f: &DroppedFile) -> (r: String)
    ensures
        r@ == summary_of(*f),
{
    let mut s = file_label(f);
    let has_mime = f.mime.as_str().unicode_len() > 0;
    if has_mime || f.bytes.is_some() {
        s.append(" (");
        if has_mime {
            s.append("type: ");
            s.append(f.mime.as_str());
        }
        match &f.bytes {
            Some(b) => {
                if has_mime {
                    s.append(", ");
                }
                let d = decimal(b.len());
                s.append(d.as_str());
                s.append(" bytes");
            },
            None => {},
        }
        s.append(")");
    }
    proof {
        let l = label_of(*f);
        let kind = "type: "@ + f.mime@;
        if f.bytes is Some {
            let size = decimal_of(f.bytes->0@.len()) + " bytes"@;
            if has_mime {
                assert(s@ =~= l + " ("@ + kind + ", "@ + size + ")"@);
            } else {
                assert(s@ =~= l + " ("@ + size + ")"@);
            }
        } else if has_mime {
            assert(s@ =~= l + " ("@ + kind + ")"@);
        }
    }
    s
}

/// How a file held over the window is named while it hovers.
pub open spec fn hover_entry(f: HoveredFile) -> Seq<char> {
    match f.path {
        Some(p) => p@,
        None => if f.mime@.len() > 0 {
            f.mime@
        } else {
            "???"@
        },
    }
}

/// The hovering files, each on a line of its own after a newline.
pub open spec fn hover_list(fs: Seq<HoveredFile>) -> Seq<char>
    decreases fs.len(),
{
    if fs.len() == 0 {
        seq![]
    } else {
        hover_list(fs.drop_last()) + "\n"@ + hover_entry(fs.last())
    }
}

/// The notice shown while files hover over the window.
pub fn hover_text(files: &Vec<HoveredFile>) -> (r: String)
    ensures
        r@ == "Dropping files:\n"@ + hover_list(files@),
{
    let mut s = String::from_str("Dropping files:\n");
    let mut i: usize = 0;
    assert(files@.take(0) =~= Seq::<HoveredFile>::empty());
    while i < files.len()
        invariant
            i <= files@.len(),
            s@ == "Dropping files:\n"@ + hover_list(files@.take(i as int)),
        decreases files@.len() - i,
    {
        let ghost before = s@;
        s.append("\n");
        match &files[i].path {
            Some(p) => s.append(p.as_str()),
            None => if files[i].mime.as_str().unicode_len() > 0 {
                s.append(files[i].mime.as_str());
            } else {
                s.append("???");
            },
        }
        proof {
            let fs = files@.take(i + 1);
            assert(fs.drop_last() =~= files@.take(i as int));
            assert(fs.last() == files@[i as int]);
            assert(s@ =~= "Dropping files:\n"@ + hover_list(fs));
        }
        i = i + 1;
    }
    assert(files@.take(files@.len() as int) =~= files@);
    s
}

impl PeakApp {
    /// The panes hold what `m` holds, with placeholders for what it lacks.
    pub open spec fn displays(&self, m: Message) -> bool {
        &&& self.email_body@ == shown(m.body, no_body_text())
        &&& self.senders@ == shown(m.from, no_sender_text())
        &&& self.recipients@ == shown(m.to, no_recipient_text())
        &&& fields_of(self.headers@) == m.headers
    }

    /// The panes hold placeholders and no headers.
    pub open spec fn displays_failure(&self) -> bool {
        &&& self.email_body@ == no_body_text()
        &&& self.senders@ == no_sender_text()
        &&& self.recipients@ == no_recipient_text()
        &&& self.headers@.len() == 0
    }

    /// The panes hold the same content in `self` and `o`.
    pub open spec fn same_panes(&self, o: &PeakApp) -> bool {
        &&& self.email_body@ == o.email_body@
        &&& self.senders@ == o.senders@
        &&& self.recipients@ == o.recipients@
        &&& self.headers@ == o.headers@
    }

    /// What `self` keeps while the panes change their content.
    pub open spec fn same_source(&self, o: &PeakApp) -> bool {
        &&& self.dropped_files@ == o.dropped_files@
        &&& self.filename@ == o.filename@
        &&& self.nothing_loaded == o.nothing_loaded
        &&& self.email_raw@ == o.email_raw@
        &&& forall|p: Pane| self.shows(p) == o.shows(p)
    }

    /// Puts a parsed message into the panes.
    pub fn show_message(&mut self, m: ParsedMessage)
        ensures
            final(self).displays(m@),
            final(self).same_source(old(self)),
    {
        self.email_body = match m.body {
            Some(b) => b,
            None => String::from_str("Failed to parse body"),
        };
        self.headers = m.headers;
        self.senders = match m.from {
            Some(f) => f,
            None => String::from_str("Failed to parse sender"),
        };
        self.recipients = match m.to {
            Some(t) => t,
            None => String::from_str("Failed to parse recipient"),
        };
    }

    /// Puts placeholders into the panes after a failed parse.
    pub fn show_failure(&mut self)
        ensures
            final(self).displays_failure(),
            final(self).same_source(old(self)),
    {
        self.email_body = String::from_str("Failed to parse body");
        self.headers = Vec::new();
        self.senders = String::from_str("Failed to parse sender");
        self.recipients = String::from_str("Failed to parse recipient");
    }

    /// Analyses the last dropped file, or the current text where none was
    /// dropped, and shows every pane: the file's label becomes the window
    /// title, its text the raw message, and the parsed message fills the
    /// panes; where its bytes are not UTF-8 the panes hold placeholders.
    pub fn analyze(&mut self)
        ensures
            forall|p: Pane| final(self).shows(p),
            final(self).dropped_files@ == old(self).dropped_files@,
            final(self).nothing_loaded == old(self).nothing_loaded,
            old(self).dropped_files@.len() == 0 ==> {
                &&& final(self).filename@ == old(self).filename@
                &&& final(self).email_raw@ == old(self).email_raw@
                &&& final(self).displays(message_of(old(self).email_raw@))
            },
            old(self).dropped_files@.len() > 0 ==> {
                let f = old(self).dropped_files@.last();
                &&& final(self).filename@ == label_of(f)
                &&& match raw_text_of(f) {
                    Some(t) => final(self).email_raw@ == t && final(self).displays(message_of(t)),
                    None => final(self).email_raw@ == old(self).email_raw@
                        && final(self).displays_failure(),
                }
            },
    {
        let n = self.dropped_files.len();
        let mut failed = false;
        if n > 0 {
            let label = file_label(&self.dropped_files[n - 1]);
            let text = file_text(&self.dropped_files[n - 1]);
            self.filename = label;
            match text {
                Some(t) => self.email_raw = t,
                None => failed = true,
            }
        }
        if failed {
            self.show_failure();
        } else {
            let m = parse_text(self.email_raw.as_str());
            self.show_message(m);
        }
        self.show_all();
    }

    /// Takes the files of a drop; a drop of no files changes nothing. A
    /// file with a path or a name makes the state loaded.
    pub fn receive_dropped(&mut self, files: Vec<DroppedFile>)
        ensures
            files@.len() == 0 ==> final(self).dropped_files@ == old(self).dropped_files@
                && final(self).nothing_loaded == old(self).nothing_loaded,
            files@.len() > 0 ==> final(self).dropped_files@ == files@
                && final(self).nothing_loaded == (old(self).nothing_loaded && forall|i: int|
                0 <= i < files@.len() ==> !names_file(#[trigger] files@[i])),
            final(self).filename@ == old(self).filename@,
            final(self).email_raw@ == old(self).email_raw@,
            final(self).same_panes(old(self)),
            forall|p: Pane| final(self).shows(p) == old(self).shows(p),
    {
        if files.len() > 0 {
            let mut any = false;
            let mut i: usize = 0;
            while i < files.len()
                invariant
                    i <= files@.len(),
                    any == exists|j: int| 0 <= j < i && names_file(#[trigger] files@[j]),
                decreases files@.len() - i,
            {
                if files[i].path.is_some() || files[i].name.as_str().unicode_len() > 0 {
                    any = true;
                }
                i = i + 1;
            }
            if any {
                self.nothing_loaded = false;
            }
            self.dropped_files = files;
        }
    }

    /// Whether `pane` is shown.
    pub open spec fn shows(&self, pane: Pane) -> bool {
        match pane {
            Pane::Body => self.email_body_visible,
            Pane::Html => self.email_html_visible,
            Pane::Headers => self.headers_visible,
            Pane::Recipients => self.recipients_visible,
            Pane::Senders => self.senders_visible,
        }
    }

    /// Everything but the pane flags agrees between `self` and `o`.
    pub open spec fn same_content(&self, o: &PeakApp) -> bool {
        &&& self.dropped_files@ == o.dropped_files@
        &&& self.filename@ == o.filename@
        &&& self.nothing_loaded == o.nothing_loaded
        &&& self.email_raw@ == o.email_raw@
        &&& self.email_body@ == o.email_body@
        &&& self.headers@ == o.headers@
        &&& self.recipients@ == o.recipients@
        &&& self.senders@ == o.senders@
    }

    /// Shows every pane.
    pub fn show_all(&mut self)
        ensures
            forall|p: Pane| final(self).shows(p),
            final(self).same_content(old(self)),
    {
        self.set_all(true);
    }

    /// Hides every pane.
    pub fn hide_all(&mut self)
        ensures
            forall|p: Pane| !final(self).shows(p),
            final(self).same_content(old(self)),
    {
        self.set_all(false);
    }

    fn set_all(&mut self, shown: bool)
        ensures
            forall|p: Pane| final(self).shows(p) == shown,
            final(self).same_content(old(self)),
    {
        self.email_body_visible = shown;
        self.email_html_visible = shown;
        self.headers_visible = shown;
        self.recipients_visible = shown;
        self.senders_visible = shown;
    }

    /// Shows `pane` where it was hidden and hides it where it was shown.
    pub fn toggle(&mut self, pane: Pane)
        ensures
            final(self).shows(pane) == !old(self).shows(pane),
            forall|p: Pane| p != pane ==> final(self).shows(p) == old(self).shows(p),
            final(self).same_content(old(self)),
    {
        match pane {
            Pane::Body => self.email_body_visible = !self.email_body_visible,
            Pane::Html => self.email_html_visible = !self.email_html_visible,
            Pane::Headers => self.headers_visible = !self.headers_visible,
            Pane::Recipients => self.recipients_visible = !self.recipients_visible,
            Pane::Senders => self.senders_visible = !self.senders_visible,
        }
    }
}


impl Default for PeakApp {
    fn default() -> (r: PeakApp)
        ensures
            r.dropped_files@.len() == 0,
            r.filename@ == "Email"@,
            r.nothing_loaded,
            r.email_raw@ == no_file_text(),
            r.email_body@ == "<iframe>Body Text</iframe>"@,
            r.headers@.len() == 0,
            r.recipients@ == "example@recipient.com"@,
            r.senders@ == "example@sender.com"@,
            forall|p: Pane| !r.shows(p),
    {
        PeakApp {
            dropped_files: Vec::new(),
            filename: String::from_str("Email"),
            nothing_loaded: true,
            email_raw: String::from_str("No email file loaded"),
            email_body: String::from_str("<iframe>Body Text</iframe>"),
            email_body_visible: false,
            email_html_visible: false,
            headers: Vec::new(),
            headers_visible: false,
            recipients: String::from_str("example@recipient.com"),
            recipients_visible: false,
            senders: String::from_str("example@sender.com"),
            senders_visible: false,
        }
    }
}

} // verus!
