//! Editor selection, attachment classification and size formatting.

use vstd::prelude::*;
use crate::text::{
    ascii_lower_seq, chars_of, decimal, digit, push_char, push_decimal, str_eq, str_trim, string_of_range, to_ascii_lowercase, trim,
    trim_start_char, starts_with,
};

verus! {

/// Editor and attachment settings.
#[derive(Debug, Clone)]
pub struct EditorConfig {
    pub editor_command: Option<String>,
    /// Directory for temporary files; the system default when absent.
    pub temp_dir: Option<String>,
    pub file_extension: String,
    pub max_attachment_size_bytes: u64,
    pub allowed_attachment_extensions: Vec<String>,
}

/// Extensions accepted for attachments by default.
pub open spec fn default_extensions() -> Seq<Seq<char>> {
    seq![
        "rs"@, "py"@, "js"@, "ts"@, "go"@, "java"@, "c"@, "cpp"@, "h"@, "hpp"@, "toml"@,
        "yaml"@, "yml"@, "json"@, "xml"@, "html"@, "css"@, "md"@, "txt"@, "log"@, "sh"@,
        "bash"@, "png"@, "jpg"@, "jpeg"@, "gif"@, "svg"@, "pdf"@,
    ]
}

impl Default for EditorConfig {
    fn default() -> (res: Self)
        ensures
            res.editor_command is None,
            res.temp_dir is None,
            res.file_extension@ == "md"@,
            res.max_attachment_size_bytes == 10 * 1024 * 1024,
            res.allowed_attachment_extensions.deep_view() == default_extensions(),
    {
        let names = [
            "rs", "py", "js", "ts", "go", "java", "c", "cpp", "h", "hpp", "toml", "yaml", "yml",
            "json", "xml", "html", "css", "md", "txt", "log", "sh", "bash", "png", "jpg", "jpeg",
            "gif", "svg", "pdf",
        ];
        let mut exts: Vec<String> = Vec::new();
        let mut i: usize = 0;
        while i < 28
            invariant
                i <= 28,
                names@.len() == 28,
                names@ == seq![
                    "rs", "py", "js", "ts", "go", "java", "c", "cpp", "h", "hpp", "toml", "yaml",
                    "yml", "json", "xml", "html", "css", "md", "txt", "log", "sh", "bash", "png",
                    "jpg", "jpeg", "gif", "svg", "pdf",
                ],
                exts.deep_view() == default_extensions().take(i as int),
            decreases 28 - i,
        {
            let ghost before = exts.deep_view();
            exts.push(String::from_str(names[i]));
            assert(exts.deep_view() =~= before.push(names@[i as int]@));
            assert(default_extensions().take(i + 1) =~= default_extensions().take(i as int).push(
                default_extensions()[i as int],
            ));
            i = i + 1;
        }
        assert(default_extensions().take(28) =~= default_extensions());
        EditorConfig {
            editor_command: None,
            temp_dir: None,
            file_extension: String::from_str("md"),
            max_attachment_size_bytes: 10 * 1024 * 1024,
            allowed_attachment_extensions: exts,
        }
    }
}

/// Facts about an attached file.
#[derive(Debug, Clone)]
pub struct AttachmentInfo {
    pub path: String,
    pub file_name: String,
    pub extension: String,
    pub size_bytes: u64,
    pub is_binary: bool,
}

/// Content of an attachment.
#[derive(Debug, Clone)]
pub enum AttachmentContent {
    Text(String),
    Binary { base64: String, mime_type: String },
}

/// An attached file with its content.
#[derive(Debug, Clone)]
pub struct Attachment {
    pub info: AttachmentInfo,
    pub content: AttachmentContent,
}

/// The first non-blank candidate, trimmed; "vi" when there is none.
pub open spec fn spec_resolve_editor(
    configured: Option<Seq<char>>,
    visual: Option<Seq<char>>,
    editor: Option<Seq<char>>,
) -> Seq<char> {
    if configured is Some && trim(configured->0).len() > 0 {
        trim(configured->0)
    } else if visual is Some && trim(visual->0).len() > 0 {
        trim(visual->0)
    } else if editor is Some && trim(editor->0).len() > 0 {
        trim(editor->0)
    } else {
        "vi"@
    }
}

/// Views an optional string.
pub open spec fn opt_seq(o: Option<String>) -> Option<Seq<char>> {
    match o {
        Some(s) => Some(s@),
        None => None,
    }
}

fn nonblank_trimmed(o: &Option<String>) -> (res: Option<String>)
    ensures
        match res {
            Some(s) => o is Some && trim(o->0@).len() > 0 && s@ == trim(o->0@),
            None => o is None || trim(o->0@).len() == 0,
        },
{
    match o {
        Some(s) => {
            let t = str_trim(s.as_str());
            if t.as_str().is_empty() {
                None
            } else {
                Some(t)
            }
        },
        None => None,
    }
}

/// The editor to run: the configured command, else `$VISUAL`, else `$EDITOR`,
/// else "vi"; blank values are skipped and values are trimmed.
pub fn resolve_editor_with_env(
    config: &EditorConfig,
    visual: Option<String>,
    editor: Option<String>,
) -> (res: Option<String>)
    ensures
        res is Some,
        res->0@ == spec_resolve_editor(opt_seq(config.editor_command), opt_seq(visual), opt_seq(editor)),
{
    let configured = nonblank_trimmed(&config.editor_command);
    if configured.is_some() {
        return configured;
    }
    let v = nonblank_trimmed(&visual);
    if v.is_some() {
        return v;
    }
    let e = nonblank_trimmed(&editor);
    if e.is_some() {
        return e;
    }
    Some(String::from_str("vi"))
}

/// Whether `s` is one of `names`.
pub open spec fn one_of(s: Seq<char>, names: Seq<Seq<char>>) -> bool {
    exists|i: int| 0 <= i < names.len() && names[i] == s
}

/// Extensions shown as plain text.
pub open spec fn text_extensions() -> Seq<Seq<char>> {
    seq![
        "rs"@, "py"@, "js"@, "ts"@, "go"@, "java"@, "c"@, "cpp"@, "h"@, "hpp"@, "sh"@, "bash"@,
        "txt"@, "log"@, "md"@, "toml"@, "yaml"@, "yml"@, "json"@, "xml"@, "html"@, "css"@,
    ]
}

/// MIME type for an extension, ignoring ASCII case.
pub open spec fn spec_mime_type(ext: Seq<char>) -> Seq<char> {
    let e = ascii_lower_seq(ext);
    if one_of(e, text_extensions()) {
        "text/plain"@
    } else if e == "png"@ {
        "image/png"@
    } else if e == "jpg"@ || e == "jpeg"@ {
        "image/jpeg"@
    } else if e == "gif"@ {
        "image/gif"@
    } else if e == "svg"@ {
        "image/svg+xml"@
    } else if e == "pdf"@ {
        "application/pdf"@
    } else {
        "application/octet-stream"@
    }
}

fn in_list(s: &str, names: &[&str]) -> (res: bool)
    ensures
        res == exists|i: int| 0 <= i < names@.len() && names@[i]@ == s@,
{
    let mut i: usize = 0;
    while i < names.len()
        invariant
            i <= names@.len(),
            forall|j: int| 0 <= j < i ==> names@[j]@ != s@,
        decreases names@.len() - i,
    {
        if str_eq(names[i], s) {
            return true;
        }
        i = i + 1;
    }
    false
}

/// MIME type for a file extension.
pub fn mime_type_for_extension(ext: &str) -> (res: &'static str)
    ensures
        res@ == spec_mime_type(ext@),
{
    let lower = to_ascii_lowercase(ext);
    let e = lower.as_str();
    let texts = [
        "rs", "py", "js", "ts", "go", "java", "c", "cpp", "h", "hpp", "sh", "bash", "txt", "log",
        "md", "toml", "yaml", "yml", "json", "xml", "html", "css",
    ];
    let is_text = in_list(e, &texts);
    assert(is_text == one_of(e@, text_extensions())) by {
        assert(texts@.len() == 22);
        if is_text {
            let i = choose|i: int| 0 <= i < texts@.len() && texts@[i]@ == e@;
            assert(text_extensions()[i] == texts@[i]@);
        }
        if one_of(e@, text_extensions()) {
            let i = choose|i: int| 0 <= i < text_extensions().len() && text_extensions()[i] == e@;
            assert(text_extensions()[i] == texts@[i]@);
        }
    }
    if is_text {
        "text/plain"
    } else if str_eq(e, "png") {
        "image/png"
    } else if str_eq(e, "jpg") || str_eq(e, "jpeg") {
        "image/jpeg"
    } else if str_eq(e, "gif") {
        "image/gif"
    } else if str_eq(e, "svg") {
        "image/svg+xml"
    } else if str_eq(e, "pdf") {
        "application/pdf"
    } else {
        "application/octet-stream"
    }
}

/// Extensions of binary files: images and PDF, ignoring ASCII case.
pub open spec fn spec_is_binary(ext: Seq<char>) -> bool {
    let e = ascii_lower_seq(ext);
    e == "png"@ || e == "jpg"@ || e == "jpeg"@ || e == "gif"@ || e == "svg"@ || e == "pdf"@
}

/// An extension is binary exactly when its MIME type is an image type or
/// PDF, both ignoring ASCII case.
pub proof fn lemma_binary_iff_image_or_pdf(ext: Seq<char>)
    ensures
        spec_is_binary(ext) <==> (starts_with(spec_mime_type(ext), "image/"@) || spec_mime_type(ext) == "application/pdf"@),
{
    reveal_strlit("rs");
    reveal_strlit("py");
    reveal_strlit("js");
    reveal_strlit("ts");
    reveal_strlit("go");
    reveal_strlit("java");
    reveal_strlit("c");
    reveal_strlit("cpp");
    reveal_strlit("h");
    reveal_strlit("hpp");
    reveal_strlit("sh");
    reveal_strlit("bash");
    reveal_strlit("txt");
    reveal_strlit("log");
    reveal_strlit("md");
    reveal_strlit("toml");
    reveal_strlit("yaml");
    reveal_strlit("yml");
    reveal_strlit("json");
    reveal_strlit("xml");
    reveal_strlit("html");
    reveal_strlit("css");
    reveal_strlit("png");
    reveal_strlit("jpg");
    reveal_strlit("jpeg");
    reveal_strlit("gif");
    reveal_strlit("svg");
    reveal_strlit("pdf");
    reveal_strlit("text/plain");
    reveal_strlit("image/png");
    reveal_strlit("image/jpeg");
    reveal_strlit("image/gif");
    reveal_strlit("image/svg+xml");
    reveal_strlit("application/pdf");
    reveal_strlit("application/octet-stream");
    reveal_strlit("image/");
    let e = ascii_lower_seq(ext);
    let texts = text_extensions();
    if spec_is_binary(ext) {
        assert(!one_of(e, texts)) by {
            if one_of(e, texts) {
                let i = choose|i: int| 0 <= i < texts.len() && texts[i] == e;
                assert(texts[i].len() == e.len() && texts[i][0] == e[0] && texts[i][1] == e[1]);
                assert(0 <= i < 22);
                assert(false);
            }
        }
        assert("image/png"@.subrange(0, 6) =~= "image/"@);
        assert("image/jpeg"@.subrange(0, 6) =~= "image/"@);
        assert("image/gif"@.subrange(0, 6) =~= "image/"@);
        assert("image/svg+xml"@.subrange(0, 6) =~= "image/"@);
    }
    assert(!starts_with("text/plain"@, "image/"@) && !starts_with("application/pdf"@, "image/"@)
        && !starts_with("application/octet-stream"@, "image/"@)) by {
        assert("text/plain"@[0] != "image/"@[0]);
        assert("application/pdf"@[0] != "image/"@[0]);
        assert("application/octet-stream"@[0] != "image/"@[0]);
    }
}

/// Whether files with this extension are binary.
pub fn is_binary_extension(ext: &str) -> (res: bool)
    ensures
        res == spec_is_binary(ext@),
{
    let lower = to_ascii_lowercase(ext);
    let e = lower.as_str();
    str_eq(e, "png") || str_eq(e, "jpg") || str_eq(e, "jpeg") || str_eq(e, "gif") || str_eq(
        e,
        "svg",
    ) || str_eq(e, "pdf")
}

/// `2^n`.
pub open spec fn pow2(n: nat) -> nat
    decreases n,
{
    if n == 0 {
        1
    } else {
        2 * pow2((n - 1) as nat)
    }
}

/// Number of binary digits of `n`.
pub open spec fn bit_len(n: nat) -> nat
    decreases n,
{
    if n == 0 {
        0
    } else {
        1 + bit_len(n / 2)
    }
}

/// `n` rounded to a multiple of `2^sh`, halfway cases to an even multiple.
pub open spec fn round_even(n: nat, sh: nat) -> nat {
    let d = pow2(sh);
    let q = n / d;
    let r = n % d;
    if 2 * r > d || (2 * r == d && q % 2 == 1) {
        (q + 1) * d
    } else {
        q * d
    }
}

/// The value of the nearest double-precision number to `n` (ties to even).
pub open spec fn as_double(n: nat) -> nat {
    if bit_len(n) <= 53 {
        n
    } else {
        round_even(n, (bit_len(n) - 53) as nat)
    }
}

/// `x / d` to one decimal place, ties to even: the number of tenths.
pub open spec fn tenths(x: nat, d: nat) -> nat {
    let t = (10 * x) / d;
    let r = (10 * x) % d;
    if 2 * r > d || (2 * r == d && t % 2 == 1) {
        t + 1
    } else {
        t
    }
}

/// `x / d` followed by a unit: whole when exact, else with one decimal.
pub open spec fn spec_format_unit(x: nat, d: nat, unit: Seq<char>) -> Seq<char> {
    if x % d == 0 {
        decimal(x / d) + " "@ + unit
    } else {
        tenths_text(x, d) + " "@ + unit
    }
}

/// Human-readable size: bytes below 1024, else KB, MB or GB of the size
/// (taken as a double) with at most one decimal.
pub open spec fn spec_format_size(bytes: nat) -> Seq<char> {
    if bytes < 1024 {
        decimal(bytes) + " B"@
    } else {
        let x = as_double(bytes);
        if x < pow2(20) {
            spec_format_unit(x, pow2(10), "KB"@)
        } else if x < pow2(30) {
            spec_format_unit(x, pow2(20), "MB"@)
        } else {
            spec_format_unit(x, pow2(30), "GB"@)
        }
    }
}


/// Values of the powers of two used here.
proof fn lemma_pow2_values()
    ensures
        pow2(10) == 1024,
        pow2(11) == 2048,
        pow2(20) == 0x10_0000,
        pow2(30) == 0x4000_0000,
        pow2(64) == 0x1_0000_0000_0000_0000,
{
    assert(pow2(0) == 1);
    assert(pow2(1) == 2);
    assert(pow2(2) == 4);
    assert(pow2(3) == 8);
    assert(pow2(4) == 16);
    assert(pow2(5) == 32);
    assert(pow2(6) == 64);
    assert(pow2(7) == 128);
    assert(pow2(8) == 256);
    assert(pow2(9) == 512);
    assert(pow2(10) == 1024);
    assert(pow2(11) == 2048);
    assert(pow2(12) == 4096);
    assert(pow2(13) == 8192);
    assert(pow2(14) == 16384);
    assert(pow2(15) == 32768);
    assert(pow2(16) == 65536);
    assert(pow2(17) == 131072);
    assert(pow2(18) == 262144);
    assert(pow2(19) == 524288);
    assert(pow2(20) == 1048576);
    assert(pow2(21) == 2097152);
    assert(pow2(22) == 4194304);
    assert(pow2(23) == 8388608);
    assert(pow2(24) == 16777216);
    assert(pow2(25) == 33554432);
    assert(pow2(26) == 67108864);
    assert(pow2(27) == 134217728);
    assert(pow2(28) == 268435456);
    assert(pow2(29) == 536870912);
    assert(pow2(30) == 1073741824);
    assert(pow2(31) == 2147483648);
    assert(pow2(32) == 4294967296);
    assert(pow2(33) == 8589934592);
    assert(pow2(34) == 17179869184);
    assert(pow2(35) == 34359738368);
    assert(pow2(36) == 68719476736);
    assert(pow2(37) == 137438953472);
    assert(pow2(38) == 274877906944);
    assert(pow2(39) == 549755813888);
    assert(pow2(40) == 1099511627776);
    assert(pow2(41) == 2199023255552);
    assert(pow2(42) == 4398046511104);
    assert(pow2(43) == 8796093022208);
    assert(pow2(44) == 17592186044416);
    assert(pow2(45) == 35184372088832);
    assert(pow2(46) == 70368744177664);
    assert(pow2(47) == 140737488355328);
    assert(pow2(48) == 281474976710656);
    assert(pow2(49) == 562949953421312);
    assert(pow2(50) == 1125899906842624);
    assert(pow2(51) == 2251799813685248);
    assert(pow2(52) == 4503599627370496);
    assert(pow2(53) == 9007199254740992);
    assert(pow2(54) == 18014398509481984);
    assert(pow2(55) == 36028797018963968);
    assert(pow2(56) == 72057594037927936);
    assert(pow2(57) == 144115188075855872);
    assert(pow2(58) == 288230376151711744);
    assert(pow2(59) == 576460752303423488);
    assert(pow2(60) == 1152921504606846976);
    assert(pow2(61) == 2305843009213693952);
    assert(pow2(62) == 4611686018427387904);
    assert(pow2(63) == 9223372036854775808);
    assert(pow2(64) == 18446744073709551616);
}

fn pow2_exec(k: u32) -> (res: u128)
    requires
        k <= 30,
    ensures
        res == pow2(k as nat),
{
    let mut r: u128 = 1;
    let mut i: u32 = 0;
    while i < k
        invariant
            i <= k <= 30,
            r == pow2(i as nat),
        decreases k - i,
    {
        proof {
            lemma_pow2_mono(i as nat, 30);
            lemma_pow2_values();
        }
        r = r * 2;
        i = i + 1;
    }
    r
}

/// Powers of two are positive.
proof fn lemma_pow2_positive(n: nat)
    ensures
        pow2(n) > 0,
    decreases n,
{
    if n > 0 {
        lemma_pow2_positive((n - 1) as nat);
    }
}

/// `2^(a+b) == 2^a * 2^b`.
proof fn lemma_pow2_add(a: nat, b: nat)
    ensures
        pow2(a + b) == pow2(a) * pow2(b),
    decreases a,
{
    if a > 0 {
        lemma_pow2_add((a - 1) as nat, b);
        assert(pow2(a + b) == 2 * pow2((a - 1 + b) as nat));
        assert(2 * (pow2((a - 1) as nat) * pow2(b)) == (2 * pow2((a - 1) as nat)) * pow2(b)) by (nonlinear_arith);
        assert(pow2(a) == 2 * pow2((a - 1) as nat));
    } else {
        assert(pow2(a) == 1);
        assert(1 * pow2(b) == pow2(b));
    }
}

fn bit_length(n: u64) -> (res: u32)
    ensures
        res == bit_len(n as nat),
        res <= 64,
{
    let mut m = n;
    let mut c: u32 = 0;
    proof {
        lemma_bit_len_u64(n as nat);
    }
    while m > 0
        invariant
            bit_len(n as nat) == c + bit_len(m as nat),
            c + bit_len(m as nat) <= 64,
        decreases m,
    {
        m = m / 2;
        c = c + 1;
    }
    proof {
        lemma_bit_len_u64(n as nat);
    }
    c
}

proof fn lemma_bit_len_u64(n: nat)
    requires
        n <= 0xffff_ffff_ffff_ffff,
    ensures
        bit_len(n) <= 64,
{
    lemma_pow2_values();
    lemma_bit_len_bound(n, 64);
}

proof fn lemma_bit_len_bound(n: nat, k: nat)
    requires
        n < pow2(k),
    ensures
        bit_len(n) <= k,
    decreases k,
{
    if n > 0 && k > 0 {
        lemma_bit_len_bound(n / 2, (k - 1) as nat);
    }
    lemma_pow2_values();
}

/// The double nearest to `n`, as an integer.
pub(crate) fn to_double(n: u64) -> (res: u128)
    ensures
        res == as_double(n as nat),
        res <= 0x1_0000_0000_0000_0000,
{
    let bl = bit_length(n);
    if bl <= 53 {
        return n as u128;
    }
    let sh = bl - 53;
    let d = pow2_exec(sh);
    proof {
        lemma_pow2_positive(sh as nat);
    }
    let x = n as u128;
    let q = x / d;
    let r = x % d;
    assert(d * q + r == x) by (nonlinear_arith)
        requires
            d > 0,
            q == x / d,
            r == x % d,
    ;
    assert(d <= 2048) by {
        assert(sh <= 11);
        lemma_pow2_values();
        lemma_pow2_mono(sh as nat, 11);
    }
    assert(q * d <= x) by (nonlinear_arith)
        requires
            d * q + r == x,
            r >= 0,
    ;
    if 2 * r > d || (2 * r == d && q % 2 == 1) {
        assert((q + 1) * d == q * d + d) by (nonlinear_arith);
        proof {
            let k = pow2((64 - sh) as nat);
            lemma_pow2_add(sh as nat, (64 - sh) as nat);
            lemma_pow2_values();
            assert(k * d == 0x1_0000_0000_0000_0000);
            assert((q + 1) * d <= 0x1_0000_0000_0000_0000) by (nonlinear_arith)
                requires
                    k * d == 0x1_0000_0000_0000_0000,
                    q * d <= x,
                    x < 0x1_0000_0000_0000_0000,
                    d > 0,
            ;
        }
        (q + 1) * d
    } else {
        q * d
    }
}

proof fn lemma_pow2_mono(a: nat, b: nat)
    requires
        a <= b,
    ensures
        pow2(a) <= pow2(b),
    decreases b,
{
    if a < b {
        lemma_pow2_mono(a, (b - 1) as nat);
    }
}


fn format_unit(out: &mut String, x: u128, d: u128, unit: &str)
    requires
        0 < d <= 0x4000_0000,
        x <= 0x1_0000_0000_0000_0000,
        d >= 1024,
    ensures
        final(out)@ == old(out)@ + spec_format_unit(x as nat, d as nat, unit@),
{
    if x % d == 0 {
        let w = x / d;
        assert(w <= x) by (nonlinear_arith)
            requires
                d > 0,
                w == x / d,
        ;
        assert(w < 0x1_0000_0000_0000_0000) by (nonlinear_arith)
            requires
                d >= 1024,
                w == x / d,
                x <= 0x1_0000_0000_0000_0000,
        ;
        push_decimal(out, w as u64);
        out.append(" ");
        out.append(unit);
    } else {
        push_tenths(out, x, d);
        out.append(" ");
        out.append(unit);
    }
}

/// `x / d` with one decimal, ties to even.
pub open spec fn tenths_text(x: nat, d: nat) -> Seq<char> {
    decimal(tenths(x, d) / 10) + "."@ + seq![digit(tenths(x, d) % 10)]
}

/// Appends `x / d` with one decimal, ties to even.
pub(crate) fn push_tenths(out: &mut String, x: u128, d: u128)
    requires
        0 < d <= 0x4000_0000,
        x <= 0x1_0000_0000_0000_0000,
        d >= 1024,
    ensures
        final(out)@ == old(out)@ + tenths_text(x as nat, d as nat),
{
    let t0 = (10 * x) / d;
    let r0 = (10 * x) % d;
    let t = if 2 * r0 > d || (2 * r0 == d && t0 % 2 == 1) {
        t0 + 1
    } else {
        t0
    };
    assert(t0 <= 10 * x) by (nonlinear_arith)
        requires
            d > 0,
            t0 as int == (10 * (x as int)) / (d as int),
    ;
    assert(t0 < 0x1_0000_0000_0000_0000) by (nonlinear_arith)
        requires
            d >= 1024,
            t0 as int == (10 * (x as int)) / (d as int),
            x <= 0x1_0000_0000_0000_0000,
    ;
    push_decimal(out, (t / 10) as u64);
    out.append(".");
    let dd: u8 = (t % 10) as u8;
    push_char(out, (dd + 48u8) as char);
    assert(seq![digit((t % 10) as nat)] == seq![(dd + 48u8) as char]);
}

/// Formats a byte count for people: "256 B", "1 KB", "1.5 KB", "3.2 GB".
pub fn format_size(bytes: u64) -> (res: String)
    ensures
        res@ == spec_format_size(bytes as nat),
{
    let mut out = String::new();
    if bytes < 1024 {
        push_decimal(&mut out, bytes);
        out.append(" B");
        return out;
    }
    let x = to_double(bytes);
    let k = pow2_exec(10);
    let m = pow2_exec(20);
    let g = pow2_exec(30);
    proof {
        lemma_pow2_values();
    }
    if x < m {
        format_unit(&mut out, x, k, "KB");
    } else if x < g {
        format_unit(&mut out, x, m, "MB");
    } else {
        format_unit(&mut out, x, g, "GB");
    }
    out
}

/// One-line description: name, extension, size and content kind.
pub fn display_summary_of(a: &Attachment) -> (res: String)
    ensures
        res@ == a.info.file_name@ + " ("@ + a.info.extension@ + "; "@ + spec_format_size(
            a.info.size_bytes as nat,
        ) + "; "@ + (match a.content {
            AttachmentContent::Text(_) => "text"@,
            AttachmentContent::Binary { .. } => "binary"@,
        }) + ")"@,
{
    let kind = match &a.content {
        AttachmentContent::Text(_) => "text",
        AttachmentContent::Binary { .. } => "binary",
    };
    let mut out = a.info.file_name.clone();
    out.append(" (");
    out.append(a.info.extension.as_str());
    out.append("; ");
    out.append(format_size(a.info.size_bytes).as_str());
    out.append("; ");
    out.append(kind);
    out.append(")");
    out
}

impl Attachment {
    /// One-line description: name, extension, size and content kind.
    pub fn display_summary(&self) -> (res: String)
        ensures
            res@ == self.info.file_name@ + " ("@ + self.info.extension@ + "; "@ + spec_format_size(
                self.info.size_bytes as nat,
            ) + "; "@ + (match self.content {
                AttachmentContent::Text(_) => "text"@,
                AttachmentContent::Binary { .. } => "binary"@,
            }) + ")"@,
    {
        display_summary_of(self)
    }
}

/// Whether `ext` is one of the allowed extensions, ignoring ASCII case.
pub open spec fn ext_allowed(allowed: Seq<String>, ext: Seq<char>) -> bool {
    exists|i: int| 0 <= i < allowed.len() && ascii_lower_seq(#[trigger] allowed[i]@) == ascii_lower_seq(ext)
}

/// What is checked of a file offered as an attachment, from what is known
/// of it: whether it exists and is a regular file, its size, its file name
/// and its extension (each absent where the path has none that is valid
/// text). The result is the name, the lowercased extension, the size and
/// whether the content is binary, or the error.
pub open spec fn attachment_check(
    path: Seq<char>,
    exists: bool,
    is_file: bool,
    size: u64,
    file_name: Option<Seq<char>>,
    extension: Option<Seq<char>>,
    max: u64,
    allowed: Seq<String>,
) -> Result<(Seq<char>, Seq<char>, u64, bool), Seq<char>> {
    if !exists {
        Err("Attachment does not exist: "@ + path)
    } else if !is_file {
        Err("Attachment is not a file: "@ + path)
    } else if size > max {
        Err("Attachment too large: "@ + spec_format_size(size as nat) + " (max "@ + spec_format_size(max as nat) + ")"@)
    } else if file_name is None {
        Err("Attachment has invalid file name: "@ + path)
    } else if extension is None {
        Err("Attachment missing extension: "@ + path)
    } else if !ext_allowed(allowed, extension->0) {
        Err("Attachment extension not allowed: ."@ + ascii_lower_seq(extension->0) + " ("@ + path + ")"@)
    } else {
        let lower = ascii_lower_seq(extension->0);
        Ok((file_name->0, lower, size, spec_is_binary(lower)))
    }
}

/// The checked attachment as plain values.
pub open spec fn attachment_result_view(r: Result<AttachmentInfo, String>) -> Result<(Seq<char>, Seq<char>, u64, bool), Seq<char>> {
    match r {
        Ok(info) => Ok((info.file_name@, info.extension@, info.size_bytes, info.is_binary)),
        Err(e) => Err(e@),
    }
}

/// Whether `ext` is allowed by `allowed`, ignoring ASCII case.
fn extension_allowed(allowed: &Vec<String>, ext: &str) -> (res: bool)
    ensures
        res == ext_allowed(allowed@, ext@),
{
    let lower = to_ascii_lowercase(ext);
    let mut i: usize = 0;
    while i < allowed.len()
        invariant
            i <= allowed.len(),
            lower@ == ascii_lower_seq(ext@),
            forall|j: int| 0 <= j < i ==> ascii_lower_seq(#[trigger] allowed@[j]@) != ascii_lower_seq(ext@),
        decreases allowed.len() - i,
    {
        let a = to_ascii_lowercase(allowed[i].as_str());
        if str_eq(a.as_str(), lower.as_str()) {
            return true;
        }
        i = i + 1;
    }
    false
}

/// Checks a file offered as an attachment against the size limit and the
/// allowed extensions, from what the filesystem said of it.
pub fn check_attachment(
    path: &str,
    exists: bool,
    is_file: bool,
    size_bytes: u64,
    file_name: Option<String>,
    extension: Option<String>,
    config: &EditorConfig,
) -> (res: Result<AttachmentInfo, String>)
    ensures
        attachment_result_view(res) == attachment_check(
            path@,
            exists,
            is_file,
            size_bytes,
            opt_seq(file_name),
            opt_seq(extension),
            config.max_attachment_size_bytes,
            config.allowed_attachment_extensions@,
        ),
        res matches Ok(info) ==> info.path@ == path@,
{
    if !exists {
        let mut e = String::from_str("Attachment does not exist: ");
        e.append(path);
        return Err(e);
    }
    if !is_file {
        let mut e = String::from_str("Attachment is not a file: ");
        e.append(path);
        return Err(e);
    }
    if size_bytes > config.max_attachment_size_bytes {
        let mut e = String::from_str("Attachment too large: ");
        e.append(format_size(size_bytes).as_str());
        e.append(" (max ");
        e.append(format_size(config.max_attachment_size_bytes).as_str());
        e.append(")");
        return Err(e);
    }
    let name = match file_name {
        Some(n) => n,
        None => {
            let mut e = String::from_str("Attachment has invalid file name: ");
            e.append(path);
            return Err(e);
        },
    };
    let ext = match extension {
        Some(x) => x,
        None => {
            let mut e = String::from_str("Attachment missing extension: ");
            e.append(path);
            return Err(e);
        },
    };
    let lower = to_ascii_lowercase(ext.as_str());
    if !extension_allowed(&config.allowed_attachment_extensions, ext.as_str()) {
        let mut e = String::from_str("Attachment extension not allowed: .");
        e.append(lower.as_str());
        e.append(" (");
        e.append(path);
        e.append(")");
        return Err(e);
    }
    let is_binary = is_binary_extension(lower.as_str());
    Ok(AttachmentInfo {
        path: String::from_str(path),
        file_name: name,
        extension: lower,
        size_bytes,
        is_binary,
    })
}

/// The extension of the editor's temporary file: the configured one,
/// trimmed and without leading dots, or "txt" where nothing is left.
pub open spec fn spec_temp_extension(ext: Seq<char>) -> Seq<char> {
    let t = trim_start_char(trim(ext), '.');
    if t.len() == 0 {
        "txt"@
    } else {
        t
    }
}

/// The extension of the editor's temporary file: the configured one,
/// trimmed and without leading dots, or "txt" where nothing is left.
pub fn temp_file_extension(config: &EditorConfig) -> (res: String)
    ensures
        res@ == spec_temp_extension(config.file_extension@),
{
    let t = str_trim(config.file_extension.as_str());
    let v = chars_of(t.as_str());
    let mut i: usize = 0;
    assert(v@.skip(0) =~= v@);
    while i < v.len() && v[i] == '.'
        invariant
            i <= v.len(),
            trim_start_char(v@, '.') == trim_start_char(v@.skip(i as int), '.'),
        decreases v.len() - i,
    {
        assert(v@.skip(i as int).drop_first() =~= v@.skip(i as int + 1));
        i = i + 1;
    }
    assert(trim_start_char(v@.skip(i as int), '.') == v@.skip(i as int));
    if i == v.len() {
        String::from_str("txt")
    } else {
        let r = string_of_range(&v, i, v.len());
        assert(v@.subrange(i as int, v.len() as int) =~= v@.skip(i as int));
        r
    }
}

/// The prompt template opened in the editor for a task.
pub open spec fn spec_prompt_template(title: Seq<char>) -> Seq<char> {
    "# "@ + title + "\n\nWrite your prompt below.\n\n## Context\n-\n\n## Requirements\n-\n"@
}

/// The prompt template opened in the editor for a task.
pub fn build_prompt_template(task_title: &str) -> (res: String)
    ensures
        res@ == spec_prompt_template(task_title@),
{
    let mut out = String::from_str("# ");
    out.append(task_title);
    out.append("\n\nWrite your prompt below.\n\n## Context\n-\n\n## Requirements\n-\n");
    out
}

/// Base64 symbol for a 6-bit value.
pub open spec fn b64_symbol(i: u32) -> char {
    if i < 26 {
        (65 + i) as char
    } else if i < 52 {
        (97 + (i - 26)) as char
    } else if i < 62 {
        (48 + (i - 52)) as char
    } else if i == 62 {
        '+'
    } else {
        '/'
    }
}

/// Standard padded Base64 of `d`, three bytes to four symbols.
pub open spec fn spec_base64(d: Seq<u8>) -> Seq<char>
    decreases d.len(),
{
    if d.len() == 0 {
        seq![]
    } else {
        let b0 = d[0] as u32;
        let b1: u32 = if d.len() > 1 { d[1] as u32 } else { 0 };
        let b2: u32 = if d.len() > 2 { d[2] as u32 } else { 0 };
        let n = (b0 << 16u32) | (b1 << 8u32) | b2;
        let c0 = b64_symbol((n >> 18u32) & 0x3f);
        let c1 = b64_symbol((n >> 12u32) & 0x3f);
        let c2 = if d.len() > 1 { b64_symbol((n >> 6u32) & 0x3f) } else { '=' };
        let c3 = if d.len() > 2 { b64_symbol(n & 0x3f) } else { '=' };
        seq![c0, c1, c2, c3] + if d.len() > 3 { spec_base64(d.skip(3)) } else { seq![] }
    }
}

fn b64_symbol_exec(i: u32) -> (res: char)
    requires
        i < 64,
    ensures
        res == b64_symbol(i),
{
    if i < 26 {
        ((65 + i) as u8) as char
    } else if i < 52 {
        ((97 + (i - 26)) as u8) as char
    } else if i < 62 {
        ((48 + (i - 52)) as u8) as char
    } else if i == 62 {
        '+'
    } else {
        '/'
    }
}

/// Standard padded Base64 encoding.
pub fn encode_base64(data: &[u8]) -> (res: String)
    ensures
        res@ == spec_base64(data@),
{
    let mut out = String::new();
    let mut i: usize = 0;
    assert(data@.skip(0) =~= data@);
    while i < data.len()
        invariant
            i <= data@.len(),
            spec_base64(data@) == out@ + spec_base64(data@.skip(i as int)),
        decreases data@.len() - i,
    {
        let ghost rest = data@.skip(i as int);
        let left = data.len() - i;
        let b0 = data[i] as u32;
        let b1: u32 = if left > 1 { data[i + 1] as u32 } else { 0 };
        let b2: u32 = if left > 2 { data[i + 2] as u32 } else { 0 };
        let n = (b0 << 16u32) | (b1 << 8u32) | b2;
        assert((n >> 18u32) & 0x3f < 64 && (n >> 12u32) & 0x3f < 64 && (n >> 6u32) & 0x3f < 64 && n & 0x3f < 64) by (bit_vector);
        push_char(&mut out, b64_symbol_exec((n >> 18u32) & 0x3f));
        push_char(&mut out, b64_symbol_exec((n >> 12u32) & 0x3f));
        if left > 1 {
            push_char(&mut out, b64_symbol_exec((n >> 6u32) & 0x3f));
        } else {
            push_char(&mut out, '=');
        }
        if left > 2 {
            push_char(&mut out, b64_symbol_exec(n & 0x3f));
        } else {
            push_char(&mut out, '=');
        }
        if left > 3 {
            assert(rest.skip(3) =~= data@.skip(i + 3));
            i = i + 3;
        } else {
            assert(data@.skip(data@.len() as int) =~= Seq::<u8>::empty());
            i = data.len();
        }
    }
    out
}

} // verus!
