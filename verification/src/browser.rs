//! Browser rules: which pages the browser may open and where page automation
//! may run, typed addresses, page titles, downloads, and the scripts that
//! drive the ChatGPT composer together with how their answers are read.
use vstd::prelude::*;

use crate::text::{
    append_chars, ascii_lower_chars, ascii_lower_seq, chars_eq, chars_of, contains_chars,
    contains_text, ends_with, string_of, trim, trim_chars,
};

verus! {

// ---------------------------------------------------------------------------
// URLs
// ---------------------------------------------------------------------------

/// The parts of a parsed URL that the rules read.
#[derive(Debug, Clone)]
pub struct ParsedUrl {
    /// The whole URL as the parser writes it back.
    pub serialization: String,
    pub scheme: String,
    pub host: Option<String>,
    pub username: String,
    pub password: Option<String>,
}

pub struct UrlParts {
    pub serialization: Seq<char>,
    pub scheme: Seq<char>,
    pub host: Option<Seq<char>>,
    pub username: Seq<char>,
    pub password: Option<Seq<char>>,
}

pub open spec fn opt_text(o: Option<String>) -> Option<Seq<char>> {
    match o {
        Some(s) => Some(s@),
        None => None,
    }
}

impl View for ParsedUrl {
    type V = UrlParts;

    open spec fn view(&self) -> UrlParts {
        UrlParts {
            serialization: self.serialization@,
            scheme: self.scheme@,
            host: opt_text(self.host),
            username: self.username@,
            password: opt_text(self.password),
        }
    }
}

pub open spec fn parsed_view(r: Option<ParsedUrl>) -> Option<UrlParts> {
    match r {
        Some(u) => Some(u@),
        None => None,
    }
}

/// What the `url` crate's parser makes of a text: `None` when it is no URL.
pub uninterp spec fn url_parse(input: Seq<char>) -> Option<UrlParts>;

/// `url::Url::parse`, read into plain parts with `as_str`, `scheme`,
/// `host_str`, `username` and `password`. Trusted: the result is `url_parse`
/// of the input; what the WHATWG parser makes of a given text is left to the
/// name.
#[verifier::external_body]
fn parse_url(input: &str) -> (r: Option<ParsedUrl>)
    ensures
        parsed_view(r) == url_parse(input@),
{
    let url = url::Url::parse(input).ok()?;
    Some(
        ParsedUrl {
            serialization: url.as_str().to_string(),
            scheme: url.scheme().to_string(),
            host: url.host_str().map(|host| host.to_string()),
            username: url.username().to_string(),
            password: url.password().map(|password| password.to_string()),
        },
    )
}

/// Parses a URL into the parts the rules read; see `url_parse`.
pub fn parse_url_parts(input: &str) -> (r: Option<ParsedUrl>)
    ensures
        parsed_view(r) == url_parse(input@),
{
    parse_url(input)
}

pub open spec fn is_local_host(host: Seq<char>) -> bool {
    host == "localhost"@ || host == "127.0.0.1"@ || host == "::1"@
}

/// The browser opens HTTPS pages, and plain HTTP only on this machine.
pub open spec fn navigation_allowed(u: UrlParts) -> bool {
    u.scheme == "https"@ || (u.scheme == "http"@ && (u.host matches Some(h) && is_local_host(h)))
}

fn text_is(s: &[char], lit: &str) -> (r: bool)
    ensures
        r == (s@ == lit@),
{
    let l = chars_of(lit);
    chars_eq(s, &l)
}

/// See `navigation_allowed`.
pub fn is_allowed_navigation_url(url: &ParsedUrl) -> (r: bool)
    ensures
        r == navigation_allowed(url@),
{
    let scheme = chars_of(url.scheme.as_str());
    if text_is(&scheme, "https") {
        return true;
    }
    if !text_is(&scheme, "http") {
        return false;
    }
    match &url.host {
        None => false,
        Some(host) => {
            let h = chars_of(host.as_str());
            text_is(&h, "localhost") || text_is(&h, "127.0.0.1") || text_is(&h, "::1")
        },
    }
}

/// chatgpt.com, its subdomains, and chat.openai.com, in any ASCII case.
pub open spec fn trusted_chatgpt_host(host: Seq<char>) -> bool {
    let lower = ascii_lower_seq(host);
    lower == ascii_lower_seq("chatgpt.com"@) || ".chatgpt.com"@.is_suffix_of(lower) || lower
        == ascii_lower_seq("chat.openai.com"@)
}

/// Page automation runs only on HTTPS pages of a trusted ChatGPT host.
pub open spec fn automation_allowed(u: UrlParts) -> bool {
    u.scheme == "https"@ && (u.host matches Some(h) && trusted_chatgpt_host(h))
}

/// See `automation_allowed`.
pub fn is_allowed_chatgpt_automation_url(url: &ParsedUrl) -> (r: bool)
    ensures
        r == automation_allowed(url@),
{
    let scheme = chars_of(url.scheme.as_str());
    if !text_is(&scheme, "https") {
        return false;
    }
    match &url.host {
        None => false,
        Some(host) => {
            let h = chars_of(host.as_str());
            let lower = ascii_lower_chars(&h);
            let a = ascii_lower_chars(&chars_of("chatgpt.com"));
            let b = chars_of(".chatgpt.com");
            let c = ascii_lower_chars(&chars_of("chat.openai.com"));
            chars_eq(&lower, &a) || ends_with(&lower, &b) || chars_eq(&lower, &c)
        },
    }
}

// ---------------------------------------------------------------------------
// Errors
// ---------------------------------------------------------------------------

#[derive(Debug)]
pub struct BrowserCommandError {
    pub code: &'static str,
    pub message: String,
}

impl BrowserCommandError {
    pub fn validation(message: &str) -> (r: Self)
        ensures
            r.code@ == "validation_error"@,
            r.message@ == message@,
    {
        BrowserCommandError { code: "validation_error", message: string_of(&chars_of(message)) }
    }

    /// An error of the window system or WebView, with its text.
    pub fn native(message: String) -> (r: Self)
        ensures
            r.code@ == "native_error"@,
            r.message@ == message@,
    {
        BrowserCommandError { code: "native_error", message }
    }

    pub fn storage(message: String) -> (r: Self)
        ensures
            r.code@ == "storage_error"@,
            r.message@ == message@,
    {
        BrowserCommandError { code: "storage_error", message }
    }

    pub fn automation(message: String) -> (r: Self)
        ensures
            r.code@ == "automation_reset_failed"@,
            r.message@ == message@,
    {
        BrowserCommandError { code: "automation_reset_failed", message }
    }

    pub fn state_unavailable(message: &str) -> (r: Self)
        ensures
            r.code@ == "state_unavailable"@,
            r.message@ == message@,
    {
        BrowserCommandError { code: "state_unavailable", message: string_of(&chars_of(message)) }
    }

    pub fn browser_unavailable() -> (r: Self)
        ensures
            r.code@ == "browser_unavailable"@,
            r.message@ == "Browser WebView is not available."@,
    {
        BrowserCommandError {
            code: "browser_unavailable",
            message: string_of(&chars_of("Browser WebView is not available.")),
        }
    }

    pub fn window_unavailable() -> (r: Self)
        ensures
            r.code@ == "window_unavailable"@,
            r.message@ == "Main window is not available."@,
    {
        BrowserCommandError {
            code: "window_unavailable",
            message: string_of(&chars_of("Main window is not available.")),
        }
    }

    /// One of the overlay WebViews is missing; `message` names it.
    pub fn webview_unavailable(message: &str) -> (r: Self)
        ensures
            r.code@ == "webview_unavailable"@,
            r.message@ == message@,
    {
        BrowserCommandError { code: "webview_unavailable", message: string_of(&chars_of(message)) }
    }
}

// ---------------------------------------------------------------------------
// Typed addresses
// ---------------------------------------------------------------------------

/// A typed address without a scheme is taken as HTTPS.
pub open spec fn url_candidate(trimmed: Seq<char>) -> Seq<char> {
    if contains_text(trimmed, "://"@) {
        trimmed
    } else {
        "https://"@ + trimmed
    }
}

/// The parsed address must exist, be allowed for navigation, and carry no
/// credentials.
pub open spec fn check_url_spec(parsed: Option<UrlParts>) -> Result<UrlParts, Seq<char>> {
    match parsed {
        None => Err("Enter a valid HTTPS URL."@),
        Some(u) => if !navigation_allowed(u) {
            Err("Only HTTPS URLs are allowed. Local HTTP is allowed for development."@)
        } else if u.username.len() != 0 || u.password is Some {
            Err("URLs with embedded credentials are not allowed."@)
        } else {
            Ok(u)
        },
    }
}

/// A typed address: trimmed, required, given HTTPS when it has no scheme,
/// parsed, and checked; every refusal is a validation error.
pub open spec fn normalize_user_url_spec(raw: Seq<char>) -> Result<UrlParts, Seq<char>> {
    let t = trim(raw);
    if t.len() == 0 {
        Err("URL is required."@)
    } else {
        check_url_spec(url_parse(url_candidate(t)))
    }
}

pub open spec fn url_result_view(r: Result<ParsedUrl, BrowserCommandError>) -> Result<UrlParts, Seq<char>> {
    match r {
        Ok(u) => Ok(u@),
        Err(e) => Err(e.message@),
    }
}

/// Checks a parsed address; see `check_url_spec`.
pub fn check_user_url(parsed: Option<ParsedUrl>) -> (r: Result<ParsedUrl, BrowserCommandError>)
    ensures
        url_result_view(r) == check_url_spec(parsed_view(parsed)),
        r matches Err(e) ==> e.code@ == "validation_error"@,
{
    match parsed {
        None => Err(BrowserCommandError::validation("Enter a valid HTTPS URL.")),
        Some(url) => {
            if !is_allowed_navigation_url(&url) {
                return Err(
                    BrowserCommandError::validation(
                        "Only HTTPS URLs are allowed. Local HTTP is allowed for development.",
                    ),
                );
            }
            let user = chars_of(url.username.as_str());
            if user.len() != 0 || url.password.is_some() {
                return Err(
                    BrowserCommandError::validation(
                        "URLs with embedded credentials are not allowed.",
                    ),
                );
            }
            Ok(url)
        },
    }
}

/// See `normalize_user_url_spec`.
pub fn normalize_user_url(raw_url: &str) -> (r: Result<ParsedUrl, BrowserCommandError>)
    ensures
        url_result_view(r) == normalize_user_url_spec(raw_url@),
        r matches Err(e) ==> e.code@ == "validation_error"@,
{
    let chars = chars_of(raw_url);
    let trimmed = trim_chars(&chars);
    if trimmed.len() == 0 {
        return Err(BrowserCommandError::validation("URL is required."));
    }
    let sep = chars_of("://");
    let candidate = if contains_chars(&trimmed, &sep) {
        trimmed
    } else {
        let mut c = chars_of("https://");
        append_chars(&mut c, &trimmed);
        c
    };
    let text = string_of(&candidate);
    check_user_url(parse_url(text.as_str()))
}

// ---------------------------------------------------------------------------
// Titles and downloads
// ---------------------------------------------------------------------------

/// A page title for the toolbar: trimmed, at most 120 characters, "ChatGPT"
/// when empty.
pub open spec fn sanitize_title_spec(title: Seq<char>) -> Seq<char> {
    let t = trim(title);
    if t.len() == 0 {
        "ChatGPT"@
    } else if t.len() <= 120 {
        t
    } else {
        t.take(120)
    }
}

/// See `sanitize_title_spec`.
pub fn sanitize_title(title: &str) -> (r: String)
    ensures
        r@ == sanitize_title_spec(title@),
{
    let chars = chars_of(title);
    let t = trim_chars(&chars);
    if t.len() == 0 {
        return string_of(&chars_of("ChatGPT"));
    }
    if t.len() <= 120 {
        return string_of(&t);
    }
    string_of(&crate::text::sub_chars(&t, 0, 120))
}

/// The last download, as the status bar shows it.
#[derive(Debug, Clone)]
pub struct DownloadSnapshot {
    pub url: String,
    pub destination: Option<String>,
    pub success: Option<bool>,
}

pub open spec fn blocked_download_message() -> Seq<char> {
    "Blocked download from an unsupported URL."@
}

/// A download the page asks for: allowed from the addresses the browser may
/// open, and then shown as in progress.
pub fn download_requested(url: &ParsedUrl, destination: String) -> (r: Result<DownloadSnapshot, String>)
    ensures
        navigation_allowed(url@) ==> (r matches Ok(d) && d.url@ == url@.serialization
            && d.destination == Some(destination) && d.success is None),
        !navigation_allowed(url@) ==> (r matches Err(e) && e@ == blocked_download_message()),
{
    if !is_allowed_navigation_url(url) {
        return Err(string_of(&chars_of("Blocked download from an unsupported URL.")));
    }
    Ok(
        DownloadSnapshot {
            url: url.serialization.clone(),
            destination: Some(destination),
            success: None,
        },
    )
}

/// A finished download, with where it went and whether it succeeded.
pub fn download_finished(url: &ParsedUrl, path: Option<String>, success: bool) -> (r: DownloadSnapshot)
    ensures
        r.url@ == url@.serialization,
        r.destination == path,
        r.success == Some(success),
{
    DownloadSnapshot { url: url.serialization.clone(), destination: path, success: Some(success) }
}

/// The transparency overlay's opacity, kept between 40 and 100 percent.
pub fn clamp_opacity_percent(percent: u8) -> (r: u8)
    ensures
        r == if percent < 40 {
            40
        } else if percent > 100 {
            100
        } else {
            percent
        },
{
    if percent < 40 {
        40
    } else if percent > 100 {
        100
    } else {
        percent
    }
}

#[derive(Debug)]
pub struct NavigateRequest {
    pub url: String,
}

#[derive(Debug)]
pub struct SetContentProtectionRequest {
    pub is_content_protected: bool,
}

// ---------------------------------------------------------------------------
// Page scripts
// ---------------------------------------------------------------------------

/// A lowercase hexadecimal digit.
pub open spec fn hex_digit(n: int) -> char {
    if n < 10 {
        (('0' as int) + n) as char
    } else {
        (('a' as int) + (n - 10)) as char
    }
}

/// How `serde_json` writes one character inside a string literal: `"` and
/// `\` after a backslash, backspace, form feed, line feed, carriage return
/// and tab as `\b \f \n \r \t`, the other characters below U+0020 as
/// `\u00` and two lowercase hex digits, and every other character as it is.
pub open spec fn json_escape_char(c: char) -> Seq<char> {
    if c == '"' {
        seq!['\\', '"']
    } else if c == '\\' {
        seq!['\\', '\\']
    } else if c == '\u{8}' {
        seq!['\\', 'b']
    } else if c == '\u{c}' {
        seq!['\\', 'f']
    } else if c == '\n' {
        seq!['\\', 'n']
    } else if c == '\r' {
        seq!['\\', 'r']
    } else if c == '\t' {
        seq!['\\', 't']
    } else if (c as u32) < 0x20 {
        seq!['\\', 'u', '0', '0', hex_digit((c as int) / 16), hex_digit((c as int) % 16)]
    } else {
        seq![c]
    }
}

pub open spec fn json_escaped(s: Seq<char>) -> Seq<char>
    decreases s.len(),
{
    if s.len() == 0 {
        Seq::empty()
    } else {
        json_escaped(s.drop_last()) + json_escape_char(s.last())
    }
}

/// The JSON string literal that `serde_json` writes for a text: the escaped
/// characters between double quotes.
pub open spec fn json_string_literal(s: Seq<char>) -> Seq<char> {
    seq!['"'] + json_escaped(s) + seq!['"']
}

/// `serde_json::to_string` of a `&str`. Trusted: the text is
/// `json_string_literal` of the argument, as the crate's escape table and
/// `write_char_escape` write it. Serializing a string into memory has no
/// failing path in the crate's source, so the error arm never runs.
#[verifier::external_body]
fn json_quote(s: &str) -> (r: String)
    ensures
        r@ == json_string_literal(s@),
{
    match serde_json::to_string(s) {
        Ok(text) => text,
        Err(_) => String::new(),
    }
}

/// A digit of the standard Base64 alphabet (`A-Z`, `a-z`, `0-9`, `+`, `/`).
pub open spec fn base64_digit(n: int) -> char {
    if n < 26 {
        (('A' as int) + n) as char
    } else if n < 52 {
        (('a' as int) + (n - 26)) as char
    } else if n < 62 {
        (('0' as int) + (n - 52)) as char
    } else if n == 62 {
        '+'
    } else {
        '/'
    }
}

/// The standard-alphabet, padded Base64 text of some bytes (RFC 4648): each
/// group of three bytes as four digits of six bits each, a last group of one
/// or two bytes padded with `=` to four characters.
pub open spec fn base64_standard(bytes: Seq<u8>) -> Seq<char>
    decreases bytes.len(),
{
    if bytes.len() == 0 {
        Seq::empty()
    } else {
        let b0 = bytes[0] as int;
        let b1 = if bytes.len() > 1 {
            bytes[1] as int
        } else {
            0
        };
        let b2 = if bytes.len() > 2 {
            bytes[2] as int
        } else {
            0
        };
        if bytes.len() == 1 {
            seq![base64_digit(b0 / 4), base64_digit((b0 % 4) * 16), '=', '=']
        } else if bytes.len() == 2 {
            seq![
                base64_digit(b0 / 4),
                base64_digit((b0 % 4) * 16 + b1 / 16),
                base64_digit((b1 % 16) * 4),
                '=',
            ]
        } else {
            seq![
                base64_digit(b0 / 4),
                base64_digit((b0 % 4) * 16 + b1 / 16),
                base64_digit((b1 % 16) * 4 + b2 / 64),
                base64_digit(b2 % 64),
            ] + base64_standard(bytes.skip(3))
        }
    }
}

/// `base64::engine::general_purpose::STANDARD.encode`. Trusted: the text is
/// `base64_standard` of the bytes (the standard alphabet with padding, which
/// the `STANDARD` engine is documented to use).
#[verifier::external_body]
fn base64_encode(bytes: &[u8]) -> (r: String)
    ensures
        r@ == base64_standard(bytes@),
{
    base64::Engine::encode(&base64::engine::general_purpose::STANDARD, bytes)
}

pub open spec fn upload_script_head() -> Seq<char> {
    "\n(() => {\n  const fileName = "@
}

pub open spec fn upload_script_middle() -> Seq<char> {
    ";\n  const base64 = "@
}

pub open spec fn upload_script_tail() -> Seq<char> {
    ";\n  const binary = atob(base64);\n  const bytes = new Uint8Array(binary.length);\n\n  for (let index = 0; index < binary.length; index += 1) {\n    bytes[index] = binary.charCodeAt(index);\n  }\n\n  const file = new File([bytes], fileName, { type: 'image/png' });\n  const inputs = Array.from(document.querySelectorAll('input[type=\"file\"]'));\n  const input = inputs.find((candidate) => {\n    const accept = (candidate.getAttribute('accept') || '').toLowerCase();\n    return !accept || accept.includes('image') || accept.includes('png') || accept.includes('*');\n  }) || inputs[0];\n\n  if (!input) {\n    return { ok: false, reason: 'file_input_not_found' };\n  }\n\n  const transfer = new DataTransfer();\n  transfer.items.add(file);\n  input.files = transfer.files;\n  input.dispatchEvent(new Event('input', { bubbles: true }));\n  input.dispatchEvent(new Event('change', { bubbles: true }));\n  window.__aiAssistantUploadStartedAt = Date.now();\n\n  return { ok: true };\n})();\n"@
}

/// The script that puts a PNG into the page's file input: the file name and
/// the Base64 of the bytes, each as a JSON string, in a fixed script.
pub open spec fn upload_script_spec(file_name: Seq<char>, png_bytes: Seq<u8>) -> Seq<char> {
    upload_script_head() + json_string_literal(file_name) + upload_script_middle()
        + json_string_literal(base64_standard(png_bytes)) + upload_script_tail()
}

/// See `upload_script_spec`.
pub fn upload_screenshot_script(file_name: &str, png_bytes: &[u8]) -> (r: String)
    ensures
        r@ == upload_script_spec(file_name@, png_bytes@),
{
    let mut out = chars_of("\n(() => {\n  const fileName = ");
    let name = json_quote(file_name);
    append_chars(&mut out, &chars_of(name.as_str()));
    append_chars(&mut out, &chars_of(";\n  const base64 = "));
    let encoded = base64_encode(png_bytes);
    let quoted = json_quote(encoded.as_str());
    append_chars(&mut out, &chars_of(quoted.as_str()));
    append_chars(&mut out, &chars_of(";\n  const binary = atob(base64);\n  const bytes = new Uint8Array(binary.length);\n\n  for (let index = 0; index < binary.length; index += 1) {\n    bytes[index] = binary.charCodeAt(index);\n  }\n\n  const file = new File([bytes], fileName, { type: 'image/png' });\n  const inputs = Array.from(document.querySelectorAll('input[type=\"file\"]'));\n  const input = inputs.find((candidate) => {\n    const accept = (candidate.getAttribute('accept') || '').toLowerCase();\n    return !accept || accept.includes('image') || accept.includes('png') || accept.includes('*');\n  }) || inputs[0];\n\n  if (!input) {\n    return { ok: false, reason: 'file_input_not_found' };\n  }\n\n  const transfer = new DataTransfer();\n  transfer.items.add(file);\n  input.files = transfer.files;\n  input.dispatchEvent(new Event('input', { bubbles: true }));\n  input.dispatchEvent(new Event('change', { bubbles: true }));\n  window.__aiAssistantUploadStartedAt = Date.now();\n\n  return { ok: true };\n})();\n"));
    string_of(&out)
}

pub open spec fn insert_script_head() -> Seq<char> {
    "\n(() => {\n  const text = "@
}

pub open spec fn insert_script_tail() -> Seq<char> {
    ";\n  const selectors = [\n    '#prompt-textarea',\n    'textarea[data-testid=\"prompt-textarea\"]',\n    'div[contenteditable=\"true\"][data-testid=\"prompt-textarea\"]',\n    'div[contenteditable=\"true\"]',\n    'textarea'\n  ];\n  const input = selectors.map((selector) => document.querySelector(selector)).find(Boolean);\n\n  if (!input) {\n    return { ok: false, reason: 'input_not_found' };\n  }\n\n  input.focus();\n\n  if (input instanceof HTMLTextAreaElement) {\n    input.value = text;\n    input.dispatchEvent(new InputEvent('input', { bubbles: true, inputType: 'insertText', data: text }));\n    input.dispatchEvent(new Event('change', { bubbles: true }));\n    return { ok: true };\n  }\n\n  if (input.isContentEditable) {\n    const selection = window.getSelection();\n    const range = document.createRange();\n    range.selectNodeContents(input);\n    selection.removeAllRanges();\n    selection.addRange(range);\n\n    if (document.execCommand('insertText', false, text)) {\n      input.dispatchEvent(new InputEvent('input', { bubbles: true, inputType: 'insertText', data: text }));\n      return { ok: true };\n    }\n\n    input.textContent = text;\n    input.dispatchEvent(new InputEvent('input', { bubbles: true, inputType: 'insertText', data: text }));\n    return { ok: true };\n  }\n\n  return { ok: false, reason: 'input_not_editable' };\n})();\n"@
}

/// The script that types a text into the composer: the text as a JSON
/// string, in a fixed script.
pub open spec fn insert_script_spec(text: Seq<char>) -> Seq<char> {
    insert_script_head() + json_string_literal(text) + insert_script_tail()
}

/// See `insert_script_spec`.
pub fn insert_text_script(text: &str) -> (r: String)
    ensures
        r@ == insert_script_spec(text@),
{
    let mut out = chars_of("\n(() => {\n  const text = ");
    let quoted = json_quote(text);
    append_chars(&mut out, &chars_of(quoted.as_str()));
    append_chars(&mut out, &chars_of(";\n  const selectors = [\n    '#prompt-textarea',\n    'textarea[data-testid=\"prompt-textarea\"]',\n    'div[contenteditable=\"true\"][data-testid=\"prompt-textarea\"]',\n    'div[contenteditable=\"true\"]',\n    'textarea'\n  ];\n  const input = selectors.map((selector) => document.querySelector(selector)).find(Boolean);\n\n  if (!input) {\n    return { ok: false, reason: 'input_not_found' };\n  }\n\n  input.focus();\n\n  if (input instanceof HTMLTextAreaElement) {\n    input.value = text;\n    input.dispatchEvent(new InputEvent('input', { bubbles: true, inputType: 'insertText', data: text }));\n    input.dispatchEvent(new Event('change', { bubbles: true }));\n    return { ok: true };\n  }\n\n  if (input.isContentEditable) {\n    const selection = window.getSelection();\n    const range = document.createRange();\n    range.selectNodeContents(input);\n    selection.removeAllRanges();\n    selection.addRange(range);\n\n    if (document.execCommand('insertText', false, text)) {\n      input.dispatchEvent(new InputEvent('input', { bubbles: true, inputType: 'insertText', data: text }));\n      return { ok: true };\n    }\n\n    input.textContent = text;\n    input.dispatchEvent(new InputEvent('input', { bubbles: true, inputType: 'insertText', data: text }));\n    return { ok: true };\n  }\n\n  return { ok: false, reason: 'input_not_editable' };\n})();\n"));
    string_of(&out)
}

/// `s` without the trailing run of `c` (`str::trim_end_matches`).
pub open spec fn strip_trailing(s: Seq<char>, c: char) -> Seq<char>
    decreases s.len(),
{
    if s.len() > 0 && s.last() == c {
        strip_trailing(s.drop_last(), c)
    } else {
        s
    }
}

fn strip_trailing_chars(s: &[char], c: char) -> (r: Vec<char>)
    ensures
        r@ == strip_trailing(s@, c),
{
    let mut end: usize = s.len();
    assert(s@.take(end as int) =~= s@);
    while end > 0 && s[end - 1] == c
        invariant
            end <= s@.len(),
            strip_trailing(s@, c) == strip_trailing(s@.take(end as int), c),
        decreases end,
    {
        assert(s@.take(end as int).drop_last() =~= s@.take(end as int - 1));
        end = end - 1;
    }
    assert(strip_trailing(s@.take(end as int), c) == s@.take(end as int));
    crate::text::sub_chars(s, 0, end)
}

pub open spec fn guard_head() -> Seq<char> {
    "\n(() => {\n  const host = window.location.hostname.toLowerCase();\n  const trustedHost = host === 'chatgpt.com' || host.endsWith('.chatgpt.com') || host === 'chat.openai.com';\n\n  if (window.location.protocol !== 'https:' || !trustedHost) {\n    return { aiAssistantAutomationBlocked: true };\n  }\n\n  return ("@
}

pub open spec fn guard_tail() -> Seq<char> {
    ");\n})();\n"@
}

/// An automation script wrapped so that it returns a "blocked" marker
/// instead of running when the page is not a trusted ChatGPT page: the script
/// is trimmed and loses its trailing semicolons to become an expression.
pub open spec fn guarded_script_spec(script: Seq<char>) -> Seq<char> {
    guard_head() + strip_trailing(trim(script), ';') + guard_tail()
}

/// See `guarded_script_spec`.
pub fn guarded_script(script: &str) -> (r: String)
    ensures
        r@ == guarded_script_spec(script@),
{
    let chars = chars_of(script);
    let body = strip_trailing_chars(&trim_chars(&chars), ';');
    let mut out = chars_of("\n(() => {\n  const host = window.location.hostname.toLowerCase();\n  const trustedHost = host === 'chatgpt.com' || host.endsWith('.chatgpt.com') || host === 'chat.openai.com';\n\n  if (window.location.protocol !== 'https:' || !trustedHost) {\n    return { aiAssistantAutomationBlocked: true };\n  }\n\n  return (");
    append_chars(&mut out, &body);
    append_chars(&mut out, &chars_of(");\n})();\n"));
    string_of(&out)
}

// ---------------------------------------------------------------------------
// Script answers
// ---------------------------------------------------------------------------

/// The fields of a script's JSON answer that the commands read; a field is
/// `None` when it is missing or of another type.
#[derive(Debug, Clone)]
pub struct ScriptReply {
    pub ok: Option<bool>,
    pub reason: Option<String>,
    pub text: Option<String>,
    pub submitted: Option<bool>,
    pub is_uploading: Option<bool>,
    pub has_attachment: Option<bool>,
    pub attachment_count: Option<u64>,
    pub has_text: Option<bool>,
    pub automation_blocked: Option<bool>,
}

pub open spec fn untrusted_page_message() -> Seq<char> {
    "ChatGPT automation is blocked because the browser is not on a trusted ChatGPT page."@
}

pub open spec fn origin_changed_message() -> Seq<char> {
    "ChatGPT automation was blocked after the page origin changed."@
}

/// Before a script runs: the browser's current page must allow automation
/// (`None` when its address could not be read as a URL).
pub fn automation_page_check(current: Option<ParsedUrl>) -> (r: Result<(), String>)
    ensures
        r is Ok <==> (current matches Some(u) && automation_allowed(u@)),
        r matches Err(e) ==> e@ == untrusted_page_message(),
{
    let allowed = match &current {
        Some(u) => is_allowed_chatgpt_automation_url(u),
        None => false,
    };
    if allowed {
        Ok(())
    } else {
        Err(string_of(&chars_of(
            "ChatGPT automation is blocked because the browser is not on a trusted ChatGPT page.",
        )))
    }
}

/// After a script ran: an answer marked blocked by the guard is an error.
pub fn guarded_reply(reply: ScriptReply) -> (r: Result<ScriptReply, String>)
    ensures
        reply.automation_blocked == Some(true) ==> (r matches Err(e) && e@ == origin_changed_message()),
        reply.automation_blocked != Some(true) ==> r == Ok::<ScriptReply, String>(reply),
{
    if reply.automation_blocked == Some(true) {
        Err(string_of(&chars_of("ChatGPT automation was blocked after the page origin changed.")))
    } else {
        Ok(reply)
    }
}

/// The reason an answer gives, or "unknown".
pub open spec fn reason_or_unknown(reason: Option<String>) -> Seq<char> {
    match reason {
        Some(r) => r@,
        None => "unknown"@,
    }
}

fn failure_with_reason(prefix: &str, reason: &Option<String>) -> (r: String)
    ensures
        r@ == prefix@ + reason_or_unknown(*reason),
{
    let mut out = chars_of(prefix);
    match reason {
        Some(text) => append_chars(&mut out, &chars_of(text.as_str())),
        None => append_chars(&mut out, &chars_of("unknown")),
    }
    string_of(&out)
}

/// Success when the answer says `ok: true`; otherwise `prefix` and the
/// answer's reason.
pub open spec fn ok_outcome_spec(prefix: Seq<char>, reply: ScriptReply) -> Result<(), Seq<char>> {
    if reply.ok == Some(true) {
        Ok(())
    } else {
        Err(prefix + reason_or_unknown(reply.reason))
    }
}

pub open spec fn unit_result_view(r: Result<(), String>) -> Result<(), Seq<char>> {
    match r {
        Ok(()) => Ok(()),
        Err(e) => Err(e@),
    }
}

fn ok_outcome(prefix: &str, reply: &ScriptReply) -> (r: Result<(), String>)
    ensures
        unit_result_view(r) == ok_outcome_spec(prefix@, *reply),
{
    if reply.ok == Some(true) {
        Ok(())
    } else {
        Err(failure_with_reason(prefix, &reply.reason))
    }
}

/// The answer to the script that puts the screenshot into the file input.
pub fn upload_outcome(reply: &ScriptReply) -> (r: Result<(), String>)
    ensures
        unit_result_view(r) == ok_outcome_spec("ChatGPT file input was not available: "@, *reply),
{
    ok_outcome("ChatGPT file input was not available: ", reply)
}

/// The answer to the script that types text into the composer.
pub fn insert_outcome(reply: &ScriptReply) -> (r: Result<(), String>)
    ensures
        unit_result_view(r) == ok_outcome_spec("ChatGPT prompt was not available: "@, *reply),
{
    ok_outcome("ChatGPT prompt was not available: ", reply)
}

/// The answer to the script that presses send.
pub fn submit_outcome(reply: &ScriptReply) -> (r: Result<(), String>)
    ensures
        unit_result_view(r) == ok_outcome_spec("ChatGPT submit control was not available: "@, *reply),
{
    ok_outcome("ChatGPT submit control was not available: ", reply)
}

/// The answer to the script that reads the composer: its text, trimmed.
pub open spec fn read_prompt_spec(reply: ScriptReply) -> Result<Seq<char>, Seq<char>> {
    if reply.ok == Some(true) {
        Ok(
            trim(
                match reply.text {
                    Some(t) => t@,
                    None => Seq::empty(),
                },
            ),
        )
    } else {
        Err("ChatGPT prompt was not available: "@ + reason_or_unknown(reply.reason))
    }
}

pub open spec fn text_result_view(r: Result<String, String>) -> Result<Seq<char>, Seq<char>> {
    match r {
        Ok(t) => Ok(t@),
        Err(e) => Err(e@),
    }
}

/// See `read_prompt_spec`.
pub fn read_prompt_outcome(reply: &ScriptReply) -> (r: Result<String, String>)
    ensures
        text_result_view(r) == read_prompt_spec(*reply),
{
    if reply.ok == Some(true) {
        let text = match &reply.text {
            Some(t) => chars_of(t.as_str()),
            None => Vec::new(),
        };
        Ok(string_of(&trim_chars(&text)))
    } else {
        Err(failure_with_reason("ChatGPT prompt was not available: ", &reply.reason))
    }
}

/// While waiting for an upload: done once there is an attachment and nothing
/// is uploading (missing fields count as false).
pub fn upload_finished(reply: &ScriptReply) -> (r: bool)
    ensures
        r == (reply.has_attachment == Some(true) && reply.is_uploading != Some(true)),
{
    let has_attachment = match reply.has_attachment {
        Some(b) => b,
        None => false,
    };
    let is_uploading = match reply.is_uploading {
        Some(b) => b,
        None => false,
    };
    has_attachment && !is_uploading
}

/// While discarding attachments: done once none is left (a missing count
/// counts as none).
pub fn attachments_gone(reply: &ScriptReply) -> (r: bool)
    ensures
        r == (reply.attachment_count is None || reply.attachment_count == Some(0u64)),
{
    match reply.attachment_count {
        Some(n) => n == 0,
        None => true,
    }
}

/// While clearing the composer: an error when the composer is missing, done
/// once it holds no attachment and no text.
pub fn composer_cleared(reply: &ScriptReply) -> (r: Result<bool, String>)
    ensures
        reply.ok != Some(true) ==> (r matches Err(e) && e@ == "ChatGPT composer was not available: "@
            + reason_or_unknown(reply.reason)),
        reply.ok == Some(true) ==> r == Ok::<bool, String>(
            (reply.attachment_count is None || reply.attachment_count == Some(0u64))
                && reply.has_text != Some(true),
        ),
{
    if reply.ok != Some(true) {
        return Err(failure_with_reason("ChatGPT composer was not available: ", &reply.reason));
    }
    let count_zero = match reply.attachment_count {
        Some(n) => n == 0,
        None => true,
    };
    let has_text = match reply.has_text {
        Some(b) => b,
        None => false,
    };
    Ok(count_zero && !has_text)
}

/// While waiting to send: done when the send button was clicked; otherwise
/// the reason it was not, to report if time runs out.
pub fn send_button_step(reply: &ScriptReply) -> (r: Result<(), String>)
    ensures
        reply.submitted == Some(true) ==> r is Ok,
        reply.submitted != Some(true) ==> (r matches Err(e) && e@ == reason_or_unknown(reply.reason)),
{
    if reply.submitted == Some(true) {
        return Ok(());
    }
    match &reply.reason {
        Some(text) => Err(string_of(&chars_of(text.as_str()))),
        None => Err(string_of(&chars_of("unknown"))),
    }
}

/// The error when the send button never became usable.
pub fn send_button_timeout_message(last_reason: &str) -> (r: String)
    ensures
        r@ == "Timed out waiting for the ChatGPT send button to become enabled: "@ + last_reason@,
{
    let mut out = chars_of("Timed out waiting for the ChatGPT send button to become enabled: ");
    append_chars(&mut out, &chars_of(last_reason));
    string_of(&out)
}

// ---------------------------------------------------------------------------
// Laws
// ---------------------------------------------------------------------------

/// Law: an accepted typed address may be opened and carries no credentials;
/// a blank one is refused as required.
pub proof fn law_accepted_addresses_are_safe(raw: Seq<char>)
    ensures
        normalize_user_url_spec(raw) matches Ok(u) ==> navigation_allowed(u) && u.username.len()
            == 0 && u.password is None,
        trim(raw).len() == 0 ==> normalize_user_url_spec(raw) == Err::<UrlParts, Seq<char>>(
            "URL is required."@,
        ),
{
}

/// Law: every page where automation may run is a page the browser may open.
pub proof fn law_automation_pages_are_navigable(u: UrlParts)
    ensures
        automation_allowed(u) ==> navigation_allowed(u),
{
}

/// Law: a shown title is never empty and never longer than 120 characters.
pub proof fn law_titles_are_bounded(title: Seq<char>)
    ensures
        0 < sanitize_title_spec(title).len() <= 120,
{
    reveal_strlit("ChatGPT");
}

proof fn lemma_strip_trailing(s: Seq<char>, c: char)
    ensures
        strip_trailing(s, c).is_prefix_of(s),
        strip_trailing(s, c).len() > 0 ==> strip_trailing(s, c).last() != c,
        forall|i: int| strip_trailing(s, c).len() <= i < s.len() ==> s[i] == c,
    decreases s.len(),
{
    if s.len() > 0 && s.last() == c {
        lemma_strip_trailing(s.drop_last(), c);
        assert forall|i: int| strip_trailing(s, c).len() <= i < s.len() implies s[i] == c by {
            if i < s.len() - 1 {
                assert(s.drop_last()[i] == s[i]);
            }
        }
    }
}

/// Law: the guarded body is the trimmed script without its trailing
/// semicolons: a prefix of it that does not end in one, followed in the
/// script only by semicolons.
pub proof fn law_guard_drops_only_trailing_semicolons(script: Seq<char>)
    ensures
        strip_trailing(trim(script), ';').is_prefix_of(trim(script)),
        strip_trailing(trim(script), ';').len() > 0 ==> strip_trailing(trim(script), ';').last()
            != ';',
        forall|i: int|
            strip_trailing(trim(script), ';').len() <= i < trim(script).len() ==> trim(script)[i]
                == ';',
{
    lemma_strip_trailing(trim(script), ';');
}

} // verus!
