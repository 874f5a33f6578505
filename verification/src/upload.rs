//! Uploads from a phone on the same network: the page's address as a QR code, and where
//! each upload goes.

use vstd::prelude::*;
use vstd::string::*;
use vstd::utf8::*;

use crate::names::{
    file_name, file_name_of, is_no_name, joined, named_files_land_in_the_directory, no_place,
    sanitize_name, sanitized, sanitized_names_a_file, settles_on, unique_path,
};
use crate::text::{chars_of, decimal, decimal_text, text_of};

verus! {

// ---- The QR code --------------------------------------------------------

/// The smallest width and height of the drawing, in pixels.
pub const QR_SIZE: u32 = 220;

/// The colour of the dark modules.
pub const QR_DARK: &'static str = "#30343F";

/// The colour of the light modules.
pub const QR_LIGHT: &'static str = "#FAFAFF";

/// What goes wrong where data make no QR code.
#[verifier::external_type_specification]
#[verifier::external_body]
pub struct ExQrError(qrcode::types::QrError);

/// The SVG document that the crate `qrcode` draws of `data` with these settings; `None`
/// where the data make no QR code.
pub uninterp spec fn qr_drawing(
    data: Seq<u8>,
    min_width: u32,
    min_height: u32,
    quiet_zone: bool,
    dark: Seq<char>,
    light: Seq<char>,
) -> Option<Seq<char>>;

/// `s` begins with `prefix`.
pub open spec fn begins_with(s: Seq<char>, prefix: Seq<char>) -> bool {
    prefix.len() <= s.len() && s.take(prefix.len() as int) == prefix
}

/// `QrCode::new` of the crate `qrcode`, rendered as SVG with these settings. A drawing
/// begins with an XML prologue, and the `svg` element follows it at once.
#[verifier::external_body]
fn draw_qr(
    data: &[u8],
    min_width: u32,
    min_height: u32,
    quiet_zone: bool,
    dark: &str,
    light: &str,
) -> (r: Result<String, qrcode::types::QrError>)
    requires
        data@.len() <= usize::MAX / 32,
        min_width <= 0xFFFF,
        min_height <= 0xFFFF,
    ensures
        r matches Ok(doc) ==> qr_drawing(data@, min_width, min_height, quiet_zone, dark@, light@)
            == Some(doc@),
        r is Err ==> qr_drawing(data@, min_width, min_height, quiet_zone, dark@, light@) is None,
        r matches Ok(doc) ==> begins_with(
            doc@,
            "<?xml version=\"1.0\" standalone=\"yes\"?><svg"@,
        ),
{
    let code = qrcode::QrCode::new(data)?;
    Ok(
        code.render::<qrcode::render::svg::Color>().min_dimensions(
            min_width,
            min_height,
        ).quiet_zone(quiet_zone).dark_color(qrcode::render::svg::Color(dark)).light_color(
            qrcode::render::svg::Color(light),
        ).build(),
    )
}

/// Where `pattern` first occurs in `s`; the length of `s` where it does not.
pub open spec fn first_at(s: Seq<char>, pattern: Seq<char>) -> int
    decreases s.len(),
{
    if s.len() == 0 {
        0
    } else if begins_with(s, pattern) {
        0
    } else {
        1 + first_at(s.drop_first(), pattern)
    }
}

/// The start of an `svg` element.
pub open spec fn svg_tag() -> Seq<char> {
    seq!['<', 's', 'v', 'g']
}

/// An SVG document from its `svg` element on; all of it where it has none.
pub open spec fn svg_element(doc: Seq<char>) -> Seq<char> {
    if first_at(doc, svg_tag()) < doc.len() {
        doc.skip(first_at(doc, svg_tag()))
    } else {
        doc
    }
}

proof fn lemma_first_at(s: Seq<char>, pattern: Seq<char>, at: int)
    requires
        pattern.len() > 0,
        0 <= at <= s.len(),
        at < s.len() ==> begins_with(s.skip(at), pattern),
        forall|i: int| 0 <= i < at ==> !begins_with(#[trigger] s.skip(i), pattern),
    ensures
        first_at(s, pattern) == at,
    decreases s.len(),
{
    if s.len() > 0 {
        assert(s.skip(0) =~= s);
        if at > 0 {
            assert(!begins_with(s.skip(0), pattern));
            let rest = s.drop_first();
            assert(rest.skip(at - 1) =~= s.skip(at));
            assert forall|i: int| 0 <= i < at - 1 implies !begins_with(
                #[trigger] rest.skip(i),
                pattern,
            ) by {
                assert(rest.skip(i) =~= s.skip(i + 1));
            }
            lemma_first_at(rest, pattern, at - 1);
        }
    }
}

proof fn lemma_first_at_finds(s: Seq<char>, pattern: Seq<char>, at: int)
    requires
        pattern.len() > 0,
        0 <= at < s.len(),
        begins_with(s.skip(at), pattern),
    ensures
        0 <= first_at(s, pattern) <= at,
        begins_with(s.skip(first_at(s, pattern)), pattern),
    decreases s.len(),
{
    if begins_with(s, pattern) {
        assert(s.skip(0) =~= s);
    } else {
        if at == 0 {
            assert(s.skip(0) =~= s);
        }
        let rest = s.drop_first();
        assert(rest.skip(at - 1) =~= s.skip(at));
        lemma_first_at_finds(rest, pattern, at - 1);
        assert(rest.skip(first_at(rest, pattern)) =~= s.skip(first_at(s, pattern)));
    }
}

fn is_tag_at(chars: &Vec<char>, i: usize) -> (r: bool)
    requires
        i <= chars@.len(),
    ensures
        r == begins_with(chars@.skip(i as int), svg_tag()),
{
    let ghost rest = chars@.skip(i as int);
    if chars.len() - i < 4 {
        return false;
    }
    let r = chars[i] == '<' && chars[i + 1] == 's' && chars[i + 2] == 'v' && chars[i + 3] == 'g';
    if r {
        assert(rest.take(4) =~= svg_tag());
    } else {
        assert(rest.take(4)[0] == rest[0] && rest.take(4)[1] == rest[1] && rest.take(4)[2] == rest[2]
            && rest.take(4)[3] == rest[3]);
    }
    r
}

/// Drops what comes before the `svg` element of a document, so that it can stand in a
/// page.
pub fn strip_prologue(doc: &str) -> (svg: String)
    ensures
        svg@ == svg_element(doc@),
{
    let chars = chars_of(doc);
    let n = chars.len();
    let mut i: usize = 0;
    while i < n && !is_tag_at(&chars, i)
        invariant
            i <= n == chars@.len(),
            forall|j: int| 0 <= j < i ==> !begins_with(#[trigger] chars@.skip(j), svg_tag()),
        decreases n - i,
    {
        i += 1;
    }
    proof {
        lemma_first_at(chars@, svg_tag(), i as int);
    }
    if i < n {
        assert(chars@.subrange(i as int, n as int) =~= chars@.skip(i as int));
        text_of(&chars.as_slice()[i..n])
    } else {
        doc.to_owned()
    }
}

/// Why the server cannot start, or cannot take a file.
#[derive(Debug, Clone, Copy, PartialEq, Eq, Structural)]
pub enum UploadError {
    /// The address of the page makes no QR code.
    DataTooLong,
    /// Every name that the file could go under is taken.
    NoFreeName,
}

/// The message of an upload error.
pub open spec fn upload_message(e: UploadError) -> Seq<char> {
    match e {
        UploadError::DataTooLong => "data too long"@,
        UploadError::NoFreeName => "no free name"@,
    }
}

impl UploadError {
    /// What to tell the user.
    pub fn message(&self) -> (r: &'static str)
        ensures
            r@ == upload_message(*self),
    {
        match self {
            UploadError::DataTooLong => "data too long",
            UploadError::NoFreeName => "no free name",
        }
    }
}

/// The QR code for an address as an `svg` element; `None` where the address makes none.
pub open spec fn qr_of(url: Seq<char>) -> Option<Seq<char>> {
    if encode_utf8(url).len() > usize::MAX / 32 {
        None
    } else {
        match qr_drawing(encode_utf8(url), QR_SIZE, QR_SIZE, true, QR_DARK@, QR_LIGHT@) {
            Some(doc) => Some(svg_element(doc)),
            None => None,
        }
    }
}

/// The QR code for an address as an `svg` element, dark on light.
pub fn qr_svg(url: &str) -> (r: Result<String, UploadError>)
    ensures
        r matches Ok(svg) ==> qr_of(url@) == Some(svg@) && begins_with(svg@, svg_tag()),
        r matches Err(e) ==> qr_of(url@) is None && e == UploadError::DataTooLong,
        r matches Ok(svg) ==> (qr_drawing(
            encode_utf8(url@),
            220,
            220,
            true,
            "#30343F"@,
            "#FAFAFF"@,
        ) matches Some(doc) && svg@ == svg_element(doc)),
        r is Err ==> encode_utf8(url@).len() > usize::MAX / 32 || qr_drawing(
            encode_utf8(url@),
            220,
            220,
            true,
            "#30343F"@,
            "#FAFAFF"@,
        ) is None,
{
    let data = url.as_bytes();
    if data.len() > usize::MAX / 32 {
        return Err(UploadError::DataTooLong);
    }
    match draw_qr(data, QR_SIZE, QR_SIZE, true, QR_DARK, QR_LIGHT) {
        Ok(doc) => {
            proof {
                reveal_strlit("<?xml version=\"1.0\" standalone=\"yes\"?><svg");
                let opening = "<?xml version=\"1.0\" standalone=\"yes\"?><svg"@;
                assert(opening.len() == 42);
                let d = doc@;
                assert(d.skip(38).take(4) =~= svg_tag()) by {
                    assert(d.take(42)[38] == opening[38]);
                    assert(d.take(42)[39] == opening[39]);
                    assert(d.take(42)[40] == opening[40]);
                    assert(d.take(42)[41] == opening[41]);
                }
                lemma_first_at_finds(d, svg_tag(), 38);
            }
            Ok(strip_prologue(doc.as_str()))
        },
        Err(_) => Err(UploadError::DataTooLong),
    }
}

// ---- The server ---------------------------------------------------------

/// What to show while the server is up.
#[derive(Debug, PartialEq, Eq)]
pub struct ServerInfo {
    pub url: String,
    /// Inline SVG of the QR code for `url`.
    pub qr_svg: String,
}

/// What is shown while the server is up.
pub struct ServerInfoView {
    pub url: Seq<char>,
    pub qr_svg: Seq<char>,
}

impl View for ServerInfo {
    type V = ServerInfoView;

    open spec fn view(&self) -> ServerInfoView {
        ServerInfoView { url: self.url@, qr_svg: self.qr_svg@ }
    }
}

impl Clone for ServerInfo {
    fn clone(&self) -> (r: Self)
        ensures
            r@ == self@,
    {
        ServerInfo { url: self.url.clone(), qr_svg: self.qr_svg.clone() }
    }
}

#[derive(Debug)]
struct Running<H> {
    info: ServerInfo,
    handle: H,
}

/// The upload server, which runs while the user has it switched on. `H` is the handle
/// that stops it.
#[derive(Debug)]
pub struct UploadServer<H> {
    running: Option<Running<H>>,
}

impl<H> View for UploadServer<H> {
    type V = Option<(ServerInfoView, H)>;

    closed spec fn view(&self) -> Option<(ServerInfoView, H)> {
        match self.running {
            Some(r) => Some((r.info@, r.handle)),
            None => None,
        }
    }
}

/// The address of the page on this host and port.
pub open spec fn page_url(lan_ip: Seq<char>, port: u16) -> Seq<char> {
    "http://"@ + lan_ip + seq![':'] + decimal(port as nat) + seq!['/']
}

/// The view of an optional server info.
pub open spec fn info_in(info: Option<ServerInfo>) -> Option<ServerInfoView> {
    match info {
        Some(i) => Some(i@),
        None => None,
    }
}

impl<H> Default for UploadServer<H> {
    /// A server that is switched off.
    fn default() -> (r: Self)
        ensures
            r@ is None,
    {
        UploadServer { running: None }
    }
}

impl<H> UploadServer<H> {
    /// The server is up on `port`, and `handle` stops it. Where it was up already, it
    /// stays as it is. Where its address makes no QR code, it is not taken for up.
    pub fn start(&mut self, port: u16, lan_ip: &str, handle: H) -> (r: Result<
        ServerInfo,
        UploadError,
    >)
        ensures
            old(self)@ matches Some(up) ==> final(self)@ == old(self)@ && (r matches Ok(info) && info@
                == up.0),
            old(self)@ is None ==> match qr_of(page_url(lan_ip@, port)) {
                Some(svg) => {
                    let shown = ServerInfoView { url: page_url(lan_ip@, port), qr_svg: svg };
                    final(self)@ == Some((shown, handle)) && (r matches Ok(info) && info@ == shown)
                },
                None => final(self)@ is None && r == Err::<ServerInfo, UploadError>(
                    UploadError::DataTooLong,
                ),
            },
            old(self)@ is None ==> (r matches Ok(info) ==> begins_with(info@.qr_svg, svg_tag())),
            old(self)@ is None ==> (r matches Ok(info) ==> info@.url == "http://"@ + lan_ip@ + seq![
                ':',
            ] + decimal(port as nat) + seq!['/']),
            r is Err ==> {
                let url = "http://"@ + lan_ip@ + seq![':'] + decimal(port as nat) + seq!['/'];
                encode_utf8(url).len() > usize::MAX / 32 || qr_drawing(
                    encode_utf8(url),
                    220,
                    220,
                    true,
                    "#30343F"@,
                    "#FAFAFF"@,
                ) is None
            },
            old(self)@ is None ==> (r matches Ok(info) ==> (qr_drawing(
                encode_utf8(info@.url),
                220,
                220,
                true,
                "#30343F"@,
                "#FAFAFF"@,
            ) matches Some(doc) && info@.qr_svg == svg_element(doc))),
    {
        if let Some(running) = &self.running {
            return Ok(running.info.clone());
        }
        let mut url = "http://".to_owned();
        url.append(lan_ip);
        url.push(':');
        url.append(decimal_text(port as u128).as_str());
        url.push('/');
        assert(url@ =~= page_url(lan_ip@, port));
        match qr_svg(url.as_str()) {
            Ok(svg) => {
                let info = ServerInfo { url, qr_svg: svg };
                let shown = info.clone();
                self.running = Some(Running { info, handle });
                Ok(shown)
            },
            Err(e) => Err(e),
        }
    }

    /// What to show while the server is up; `None` while it is not.
    pub fn info(&self) -> (r: Option<ServerInfo>)
        ensures
            info_in(r) == (match self@ {
                Some(up) => Some(up.0),
                None => None,
            }),
    {
        match &self.running {
            Some(running) => Some(running.info.clone()),
            None => None,
        }
    }

    /// Switches the server off. Hands back the handle that stops it, if it was up.
    pub fn stop(&mut self) -> (handle: Option<H>)
        ensures
            final(self)@ is None,
            handle == (match old(self)@ {
                Some(up) => Some(up.1),
                None => None,
            }),
    {
        match self.running.take() {
            Some(running) => Some(running.handle),
            None => None,
        }
    }
}

// ---- One upload ---------------------------------------------------------

/// One file that landed through the page.
#[derive(Debug, PartialEq, Eq)]
pub struct ReceivedUpload {
    pub name: String,
    pub size: u64,
    pub path: String,
}

/// A file that is being uploaded.
#[derive(Debug)]
pub struct Upload {
    name: String,
    path: String,
    size: u64,
}

impl Upload {
    /// The name that was sent, sanitized.
    pub closed spec fn name(self) -> Seq<char> {
        self.name@
    }

    /// Where the file goes.
    pub closed spec fn path(self) -> Seq<char> {
        self.path@
    }

    /// How many bytes have come so far.
    pub closed spec fn size(self) -> u64 {
        self.size
    }

    /// Begins with a field of the form. A field without a file name is no file and is
    /// passed over; any other goes into `dir` under a sanitized name that is not taken. It
    /// is refused where there is none.
    pub fn begin<F: Fn(&str) -> bool>(
        sent_name: Option<String>,
        dir: &str,
        now_millis: u128,
        taken: F,
    ) -> (r: Result<Option<Upload>, UploadError>)
        requires
            forall|p: &str| call_requires(taken, (p,)),
        ensures
            sent_name is None ==> (r matches Ok(u) && u is None),
            sent_name matches Some(raw) ==> match r {
                Ok(u) => {
                    &&& u is Some
                    &&& u->0.name() == sanitized(raw@)
                    &&& settles_on(dir@, u->0.name(), now_millis as nat, taken, u->0.path())
                    &&& u->0.size() == 0
                },
                Err(e) => {
                    &&& e == UploadError::NoFreeName
                    &&& no_place(dir@, sanitized(raw@), now_millis as nat, taken)
                },
            },
    {
        match sent_name {
            Some(raw) => {
                let name = sanitize_name(raw.as_str());
                match unique_path(dir, name.as_str(), now_millis, taken) {
                    Some(path) => Ok(Some(Upload { name, path, size: 0 })),
                    None => Err(UploadError::NoFreeName),
                }
            },
            None => Ok(None),
        }
    }

    /// Where the file goes.
    pub fn destination(&self) -> (r: &str)
        ensures
            r@ == self.path(),
    {
        self.path.as_str()
    }

    /// How many bytes have come so far.
    pub fn received(&self) -> (r: u64)
        ensures
            r == self.size(),
    {
        self.size
    }

    /// Counts a chunk of `len` bytes.
    pub fn on_chunk(&mut self, len: usize)
        requires
            old(self).size() + len <= u64::MAX,
        ensures
            final(self).name() == old(self).name(),
            final(self).path() == old(self).path(),
            final(self).size() == old(self).size() + len,
    {
        self.size = self.size + len as u64;
    }

    /// The upload is complete: what to report of it.
    pub fn finish(self) -> (r: ReceivedUpload)
        ensures
            r.name@ == (match file_name(self.path()) {
                Some(text) => text,
                None => self.name(),
            }),
            r.size == self.size(),
            r.path@ == self.path(),
    {
        let name = match file_name_of(self.path.as_str()) {
            Some(text) => text,
            None => self.name,
        };
        ReceivedUpload { name, size: self.size, path: self.path }
    }
}

/// Whatever name the other side sends, an upload lands in `dir` itself, and is reported
/// under the name that it has there.
pub proof fn uploads_land_in_the_directory<F: Fn(&str) -> bool>(
    upload: Upload,
    dir: Seq<char>,
    raw: Seq<char>,
    now_millis: nat,
    taken: F,
) -> (landed: Seq<char>)
    requires
        settles_on(dir, sanitized(raw), now_millis, taken, upload.path()),
    ensures
        upload.path() == joined(dir, landed),
        !landed.contains('/'),
        !is_no_name(landed),
        file_name(upload.path()) == Some(landed),
{
    let name = sanitized(raw);
    sanitized_names_a_file(raw);
    if name.contains('/') {
        let i = choose|i: int| 0 <= i < name.len() && name[i] == '/';
        assert(crate::names::is_separator(name[i]));
    }
    named_files_land_in_the_directory(dir, name, now_millis, taken, upload.path())
}

/// `<svg` stands at this place in a document.
pub open spec fn is_svg_at(doc: Seq<char>, i: int) -> bool {
    i + 4 <= doc.len() && doc[i] == '<' && doc[i + 1] == 's' && doc[i + 2] == 'v' && doc[i + 3] == 'g'
}

proof fn lemma_is_svg_at(doc: Seq<char>, i: int)
    requires
        0 <= i <= doc.len(),
    ensures
        is_svg_at(doc, i) == begins_with(doc.skip(i), svg_tag()),
{
    let rest = doc.skip(i);
    if i + 4 <= doc.len() {
        assert(rest[0] == doc[i] && rest[1] == doc[i + 1] && rest[2] == doc[i + 2] && rest[3] == doc[i
            + 3]);
        assert(rest.take(4)[0] == rest[0] && rest.take(4)[1] == rest[1] && rest.take(4)[2] == rest[2]
            && rest.take(4)[3] == rest[3]);
        if is_svg_at(doc, i) {
            assert(rest.take(4) =~= svg_tag());
        }
    }
}

/// A drawing is kept whole from its first `<svg` on, to its last character; one without is
/// kept as it is.
pub proof fn a_drawing_is_kept_from_its_element_on(doc: Seq<char>, at: int)
    requires
        0 <= at <= doc.len(),
        forall|i: int| 0 <= i < at ==> !#[trigger] is_svg_at(doc, i),
    ensures
        is_svg_at(doc, at) ==> svg_element(doc) == doc.skip(at),
        at == doc.len() ==> svg_element(doc) == doc,
{
    assert forall|i: int| 0 <= i < at implies !begins_with(#[trigger] doc.skip(i), svg_tag()) by {
        lemma_is_svg_at(doc, i);
        assert(!is_svg_at(doc, i));
    }
    lemma_is_svg_at(doc, at);
    if is_svg_at(doc, at) || at == doc.len() {
        lemma_first_at(doc, svg_tag(), at);
    }
}

/// What is shown of a server is what its info holds.
pub proof fn a_server_info_shows_what_it_holds(info: ServerInfo)
    ensures
        info@.url == info.url@,
        info@.qr_svg == info.qr_svg@,
        info_in(Some(info)) == Some(info@),
        info_in(None) is None,
{
}

} // verus!
