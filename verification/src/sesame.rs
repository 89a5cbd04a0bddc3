//! The CDS Sesame service: requests, and what is made of the answers.
//!
//! Sesame knows more names than SIMBAD alone, but says less of an object: no
//! object id, and no other names. What it says can be replaced by what another
//! resolver says of the same object.

use vstd::prelude::*;
use vstd::utf8::encode_utf8;

use crate::config::{ConfigView, SimbadConfig, Timeout, DEFAULT_USER_AGENT};
use crate::endpoint::{parse_url, url_of};
use crate::error::{ErrorView, ResolveError};
use crate::float::Double;
use crate::normalize::{normalize, normalized};
use crate::order::views;
use crate::resolver::{answer_view, Resolver};
use crate::tap::{lossy_text, text_from_bytes};
use crate::text::{chars_of, collapsed, find_from, occurs_at, push_text, text_between, texts, trim, trimmed};
use crate::types::{has_normalized, map_otype, normalizes, opt_text, otype_of, AliasKind, AliasView, IdentityView, ResolvedAlias, ResolvedIdentity, TargetSource};
use crate::wire::collapse_spaces;

verus! {

/// The endpoint of Sesame. The name is appended to it, behind the question mark.
pub const DEFAULT_SESAME_ENDPOINT: &'static str =
    "https://cds.unistra.fr/cgi-bin/nph-sesame/-oxp/SNV?";

/// How much of an answer is read, in bytes.
pub const MAX_BODY_BYTES: usize = 8_388_608;

/// The default configuration, with the endpoint of Sesame.
pub open spec fn sesame_defaults() -> ConfigView {
    ConfigView {
        endpoint: DEFAULT_SESAME_ENDPOINT@,
        timeout: Timeout { secs: 10, nanos: 0 },
        user_agent: DEFAULT_USER_AGENT@,
    }
}

/// The default configuration, with the endpoint of Sesame.
pub fn default_sesame_config() -> (r: SimbadConfig)
    ensures
        r@ == sesame_defaults(),
{
    let base = SimbadConfig::default();
    SimbadConfig {
        endpoint: DEFAULT_SESAME_ENDPOINT.to_owned(),
        timeout: base.timeout,
        user_agent: base.user_agent,
    }
}

// ── Requests ─────────────────────────────────────────────────────────────────

/// Whether a byte stands for itself in a query: a letter, a digit, or one of
/// `-`, `.`, `_` and `~`.
pub open spec fn unreserved(b: u8) -> bool {
    ||| 0x41 <= b <= 0x5a
    ||| 0x61 <= b <= 0x7a
    ||| 0x30 <= b <= 0x39
    ||| b == 0x2d
    ||| b == 0x2e
    ||| b == 0x5f
    ||| b == 0x7e
}

/// The upper-case hexadecimal digit of `d`.
pub open spec fn upper_hex(d: int) -> char {
    if d < 10 {
        (0x30 + d) as char
    } else {
        (0x37 + d) as char
    }
}

/// Bytes in percent encoding.
pub open spec fn percent_encoded(bytes: Seq<u8>) -> Seq<char>
    decreases bytes.len(),
{
    if bytes.len() == 0 {
        Seq::empty()
    } else {
        let front = percent_encoded(bytes.drop_last());
        let b = bytes.last();
        if unreserved(b) {
            front.push(b as char)
        } else {
            front.push('%').push(upper_hex(b as int / 16)).push(upper_hex(b as int % 16))
        }
    }
}

fn hex_upper(d: u8) -> (c: char)
    requires
        d < 16,
    ensures
        c == upper_hex(d as int),
{
    if d < 10 {
        (0x30 + d) as char
    } else {
        (0x37 + d) as char
    }
}

/// A name in percent encoding, byte by byte of its UTF-8 form.
pub fn percent_encode_query(name: &str) -> (out: String)
    ensures
        out@ == percent_encoded(encode_utf8(name@)),
{
    let bytes = name.as_bytes();
    let mut out = String::new();
    let mut i: usize = 0;
    assert(bytes@.take(0) =~= Seq::empty());
    while i < bytes.len()
        invariant
            i <= bytes@.len(),
            out@ == percent_encoded(bytes@.take(i as int)),
        decreases bytes@.len() - i,
    {
        let b: u8 = bytes[i];
        proof {
            assert(bytes@.take(i + 1).drop_last() =~= bytes@.take(i as int));
            assert(bytes@.take(i + 1).last() == b);
        }
        if (0x41 <= b && b <= 0x5a) || (0x61 <= b && b <= 0x7a) || (0x30 <= b && b <= 0x39) || b
            == 0x2d || b == 0x2e || b == 0x5f || b == 0x7e {
            out.push(b as char);
        } else {
            out.push('%');
            out.push(hex_upper(b / 16));
            out.push(hex_upper(b % 16));
        }
        i += 1;
    }
    assert(bytes@.take(bytes@.len() as int) =~= bytes@);
    out
}

/// The URL of a request, given what the text of it parses to.
pub open spec fn request_of(parsed: Result<Seq<char>, Seq<char>>) -> Result<Seq<char>, ErrorView> {
    match parsed {
        Ok(url) => Ok(url),
        Err(message) => Err(ErrorView::Network("invalid Sesame endpoint: "@ + message)),
    }
}

/// The URL of a request, given what the text of it parses to.
pub fn request_from(parsed: Result<String, String>) -> (r: Result<String, ResolveError>)
    ensures
        match r {
            Ok(url) => parsed is Ok && parsed->Ok_0@ == url@,
            Err(e) => parsed is Err && e@ == ErrorView::Network(
                "invalid Sesame endpoint: "@ + parsed->Err_0@,
            ),
        },
{
    match parsed {
        Ok(url) => Ok(url),
        Err(message) => {
            let mut m = String::new();
            push_text(&mut m, "invalid Sesame endpoint: ");
            push_text(&mut m, message.as_str());
            assert(m@ =~= "invalid Sesame endpoint: "@ + message@);
            Err(ResolveError::Network(m))
        },
    }
}

/// A configured Sesame service.
#[derive(Debug, Eq, PartialEq)]
pub struct SesameResolver {
    /// Where and how requests are sent.
    pub config: SimbadConfig,
}

impl SesameResolver {
    /// The service at its default endpoint.
    pub fn new() -> (r: Self)
        ensures
            r.config@ == sesame_defaults(),
    {
        Self::with_config(default_sesame_config())
    }

    /// The service of a configuration.
    pub fn with_config(config: SimbadConfig) -> (r: Self)
        ensures
            r.config == config,
    {
        SesameResolver { config }
    }

    /// The URL of the request for a name: the endpoint, and the name in percent
    /// encoding. An error where that is no URL.
    pub fn request_url(&self, name: &str) -> (r: Result<String, ResolveError>)
        ensures
            ({
                let combined = self.config@.endpoint + percent_encoded(encode_utf8(name@));
                match r {
                    Ok(url) => request_of(url_of(combined)) == Ok::<_, ErrorView>(url@),
                    Err(e) => request_of(url_of(combined)) == Err::<Seq<char>, _>(e@),
                }
            }),
    {
        let mut combined = self.config.endpoint.clone();
        push_text(&mut combined, percent_encode_query(name).as_str());
        request_from(parse_url(combined.as_str()))
    }
}

impl Default for SesameResolver {
    fn default() -> (r: Self)
        ensures
            r.config@ == sesame_defaults(),
    {
        SesameResolver::new()
    }
}

/// What an answer with an unsuccessful status comes to.
pub fn status_failure(status: &str) -> (e: ResolveError)
    ensures
        e@ == ErrorView::Network("Sesame returned HTTP "@ + status@),
{
    let mut m = String::new();
    push_text(&mut m, "Sesame returned HTTP ");
    push_text(&mut m, status);
    assert(m@ =~= "Sesame returned HTTP "@ + status@);
    ResolveError::Network(m)
}

/// The bytes of an answer that are read.
pub open spec fn bounded(bytes: Seq<u8>) -> Seq<u8> {
    if bytes.len() > MAX_BODY_BYTES {
        bytes.take(MAX_BODY_BYTES as int)
    } else {
        bytes
    }
}

/// The text of an answer, of which at most [`MAX_BODY_BYTES`] are read.
pub fn body_text(bytes: Vec<u8>) -> (text: String)
    ensures
        text@ == lossy_text(bounded(bytes@)),
{
    let mut kept = bytes;
    if kept.len() > MAX_BODY_BYTES {
        kept.truncate(MAX_BODY_BYTES);
        assert(kept@ =~= bytes@.take(MAX_BODY_BYTES as int));
    }
    text_from_bytes(&kept)
}

// ── Answers ──────────────────────────────────────────────────────────────────

/// The first place at or after `from` at which `needle` stands in `hay`.
pub open spec fn place_of(hay: Seq<char>, needle: Seq<char>, from: int) -> Option<int>
    decreases hay.len() + 1 - from,
{
    if from > hay.len() {
        None
    } else if occurs_at(hay, needle, from) {
        Some(from)
    } else {
        place_of(hay, needle, from + 1)
    }
}

proof fn lemma_place(hay: Seq<char>, needle: Seq<char>, from: int, at: int)
    requires
        from <= at,
        forall|k: int| from <= k < at ==> !occurs_at(hay, needle, k),
        occurs_at(hay, needle, at),
    ensures
        place_of(hay, needle, from) == Some(at),
    decreases at - from,
{
    if from < at {
        lemma_place(hay, needle, from + 1, at);
    }
}

proof fn lemma_no_place(hay: Seq<char>, needle: Seq<char>, from: int)
    requires
        forall|k: int| from <= k ==> !occurs_at(hay, needle, k),
    ensures
        place_of(hay, needle, from) is None,
    decreases hay.len() + 1 - from,
{
    if from <= hay.len() {
        lemma_no_place(hay, needle, from + 1);
    }
}

fn place(hay: &Vec<char>, needle: &Vec<char>, from: usize) -> (r: Option<usize>)
    ensures
        match r {
            Some(at) => place_of(hay@, needle@, from as int) == Some(at as int) && from <= at && at
                + needle@.len() <= hay@.len(),
            None => place_of(hay@, needle@, from as int) is None,
        },
{
    let r = find_from(hay, needle, from);
    proof {
        match r {
            Some(at) => lemma_place(hay@, needle@, from as int, at as int),
            None => lemma_no_place(hay@, needle@, from as int),
        }
    }
    r
}

/// What stands, at or after `from`, between the first `open` and the first
/// `close` behind it: the text without outer white space, and where `close`
/// ends.
pub open spec fn element(
    s: Seq<char>,
    open: Seq<char>,
    close: Seq<char>,
    from: int,
) -> Option<(Seq<char>, int)> {
    match place_of(s, open, from) {
        None => None,
        Some(p) => match place_of(s, close, p + open.len()) {
            None => None,
            Some(q) => Some((trimmed(s.subrange(p + open.len(), q)), q + close.len())),
        },
    }
}

fn find_element(s: &Vec<char>, open: &str, close: &str, from: usize) -> (r: Option<(String, usize)>)
    ensures
        match r {
            Some((text, end)) => element(s@, open@, close@, from as int) == Some(
                (text@, end as int),
            ) && from + close@.len() <= end <= s@.len(),
            None => element(s@, open@, close@, from as int) is None,
        },
{
    let o = chars_of(open);
    let c = chars_of(close);
    let n: usize = s.len();
    assert(n == s@.len());
    match place(s, &o, from) {
        None => None,
        Some(p) => {
            let start: usize = p + o.len();
            match place(s, &c, start) {
                None => None,
                Some(q) => {
                    let inner = text_between(s, start, q);
                    Some((trim(inner.as_str()), q + c.len()))
                },
            }
        },
    }
}

/// The first element of a block.
pub open spec fn first_element(s: Seq<char>, open: Seq<char>, close: Seq<char>) -> Option<
    Seq<char>,
> {
    match element(s, open, close, 0) {
        Some((text, _)) => Some(text),
        None => None,
    }
}

fn find_first(s: &Vec<char>, open: &str, close: &str) -> (r: Option<String>)
    ensures
        opt_text(r) == first_element(s@, open@, close@),
{
    match find_element(s, open, close, 0) {
        Some((text, _)) => Some(text),
        None => None,
    }
}

/// The texts of all elements of `s` from `from` on.
pub open spec fn all_elements(
    s: Seq<char>,
    open: Seq<char>,
    close: Seq<char>,
    from: int,
) -> Seq<Seq<char>>
    decreases s.len() - from,
{
    if from < 0 || close.len() == 0 {
        Seq::empty()
    } else {
        match element(s, open, close, from) {
            None => Seq::empty(),
            Some((text, end)) => if from < end <= s.len() {
                seq![text] + all_elements(s, open, close, end)
            } else {
                Seq::empty()
            },
        }
    }
}

fn find_all(s: &Vec<char>, open: &str, close: &str) -> (out: Vec<String>)
    requires
        close@.len() > 0,
    ensures
        texts(out@) == all_elements(s@, open@, close@, 0),
{
    let mut out: Vec<String> = Vec::new();
    let mut from: usize = 0;
    let ghost whole = all_elements(s@, open@, close@, 0);
    let mut more: bool = true;
    assert(texts(out@) + all_elements(s@, open@, close@, 0) =~= whole);
    while more
        invariant
            close@.len() > 0,
            from <= s@.len(),
            whole == texts(out@) + if more {
                all_elements(s@, open@, close@, from as int)
            } else {
                Seq::empty()
            },
        decreases s@.len() - from + if more {
            1int
        } else {
            0int
        },
    {
        let ghost done = out@;
        match find_element(s, open, close, from) {
            None => {
                more = false;
                assert(whole =~= texts(out@) + Seq::empty());
            },
            Some((text, end)) => {
                out.push(text);
                proof {
                    assert(texts(out@) =~= texts(done).push(text@));
                    assert(whole =~= texts(out@) + all_elements(s@, open@, close@, end as int));
                }
                from = end;
            },
        }
    }
    assert(texts(out@) =~= whole);
    out
}

/// The view of a [`SesameBlock`].
#[verifier::ext_equal]
pub struct BlockView {
    pub ra: Option<Seq<char>>,
    pub dec: Option<Seq<char>>,
    pub oname: Option<Seq<char>>,
    pub otype: Option<Seq<char>>,
    pub aliases: Seq<Seq<char>>,
}

/// What one of the services behind Sesame says of a name.
#[derive(Debug, Eq, PartialEq)]
pub struct SesameBlock {
    /// The text of the right ascension in degrees.
    pub ra: Option<String>,
    /// The text of the declination in degrees.
    pub dec: Option<String>,
    /// The designation.
    pub oname: Option<String>,
    /// The object-type code.
    pub otype: Option<String>,
    /// Other names.
    pub aliases: Vec<String>,
}

impl View for SesameBlock {
    type V = BlockView;

    open spec fn view(&self) -> BlockView {
        BlockView {
            ra: opt_text(self.ra),
            dec: opt_text(self.dec),
            oname: opt_text(self.oname),
            otype: opt_text(self.otype),
            aliases: texts(self.aliases@),
        }
    }
}

/// What a `Resolver` element says.
pub open spec fn block_of(s: Seq<char>) -> BlockView {
    BlockView {
        ra: first_element(s, "<jradeg>"@, "</jradeg>"@),
        dec: first_element(s, "<jdedeg>"@, "</jdedeg>"@),
        oname: first_element(s, "<oname>"@, "</oname>"@),
        otype: first_element(s, "<otype>"@, "</otype>"@),
        aliases: all_elements(s, "<alias>"@, "</alias>"@, 0),
    }
}

fn read_block(s: &str) -> (r: SesameBlock)
    ensures
        r@ == block_of(s@),
{
    proof {
        reveal_strlit("</alias>");
        assert("</alias>"@.len() == 8);
    }
    let chars = chars_of(s);
    SesameBlock {
        ra: find_first(&chars, "<jradeg>", "</jradeg>"),
        dec: find_first(&chars, "<jdedeg>", "</jdedeg>"),
        oname: find_first(&chars, "<oname>", "</oname>"),
        otype: find_first(&chars, "<otype>", "</otype>"),
        aliases: find_all(&chars, "<alias>", "</alias>"),
    }
}

/// The `Resolver` elements of an answer, as text.
pub open spec fn block_texts(text: Seq<char>) -> Seq<Seq<char>> {
    all_elements(text, "<Resolver"@, "</Resolver>"@, 0)
}

/// What the services behind Sesame say, in the order of the answer.
pub fn sesame_blocks(text: &str) -> (out: Vec<SesameBlock>)
    ensures
        out@.len() == block_texts(text@).len(),
        forall|i: int|
            0 <= i < out@.len() ==> (#[trigger] out@[i])@ == block_of(block_texts(text@)[i]),
{
    proof {
        reveal_strlit("</Resolver>");
        assert("</Resolver>"@.len() == 11);
    }
    let parts = find_all(&chars_of(text), "<Resolver", "</Resolver>");
    let ghost all = block_texts(text@);
    let mut out: Vec<SesameBlock> = Vec::new();
    let mut i: usize = 0;
    while i < parts.len()
        invariant
            all == texts(parts@),
            i <= parts@.len(),
            out@.len() == i,
            forall|j: int| 0 <= j < i ==> (#[trigger] out@[j])@ == block_of(all[j]),
        decreases parts@.len() - i,
    {
        assert(all[i as int] == parts@[i as int]@);
        out.push(read_block(parts[i].as_str()));
        i += 1;
    }
    out
}

/// The coordinates that the texts of a block read as; `None` where a text is
/// missing or no number.
#[derive(Clone, Copy, Debug, PartialEq)]
pub struct BlockNumbers {
    /// Right ascension.
    pub ra: Option<Double>,
    /// Declination.
    pub dec: Option<Double>,
}

/// The view of a [`SesameHit`].
#[verifier::ext_equal]
pub struct SesameView {
    pub ra_deg: Double,
    pub dec_deg: Double,
    pub oname: Option<Seq<char>>,
    pub otype: Option<Seq<char>>,
    pub aliases: Seq<Seq<char>>,
}

/// What Sesame says of a name.
#[derive(Debug, PartialEq)]
pub struct SesameHit {
    /// Right ascension in degrees.
    pub ra_deg: Double,
    /// Declination in degrees.
    pub dec_deg: Double,
    /// The designation.
    pub oname: Option<String>,
    /// The object-type code.
    pub otype: Option<String>,
    /// Other names.
    pub aliases: Vec<String>,
}

impl View for SesameHit {
    type V = SesameView;

    open spec fn view(&self) -> SesameView {
        SesameView {
            ra_deg: self.ra_deg,
            dec_deg: self.dec_deg,
            oname: opt_text(self.oname),
            otype: opt_text(self.otype),
            aliases: texts(self.aliases@),
        }
    }
}

/// Whether a block has coordinates, and those are in range.
pub open spec fn located(block: BlockView, numbers: BlockNumbers) -> Option<SesameView> {
    match (numbers.ra, numbers.dec) {
        (Some(ra), Some(dec)) => if ra.right_ascension() && dec.declination() {
            Some(
                SesameView {
                    ra_deg: ra,
                    dec_deg: dec,
                    oname: block.oname,
                    otype: block.otype,
                    aliases: block.aliases,
                },
            )
        } else {
            None
        },
        _ => None,
    }
}

/// The first block from `i` on that is located, given the coordinates that each
/// reads as.
pub open spec fn first_located(
    parts: Seq<Seq<char>>,
    numbers: Seq<BlockNumbers>,
    i: int,
) -> Option<SesameView>
    decreases parts.len() - i,
{
    if i < 0 || i >= parts.len() || i >= numbers.len() {
        None
    } else {
        match located(block_of(parts[i]), numbers[i]) {
            Some(hit) => Some(hit),
            None => first_located(parts, numbers, i + 1),
        }
    }
}

/// What an answer says: the first block whose coordinates are there and in
/// range, given the coordinates that each of the [`sesame_blocks`] reads as.
pub fn parse_sesame_xml(text: &str, numbers: &Vec<BlockNumbers>) -> (r: Option<SesameHit>)
    ensures
        match r {
            Some(hit) => first_located(block_texts(text@), numbers@, 0) == Some(hit@),
            None => first_located(block_texts(text@), numbers@, 0) is None,
        },
{
    let mut blocks = sesame_blocks(text);
    let ghost parts = block_texts(text@);
    let mut i: usize = 0;
    while i < blocks.len() && i < numbers.len()
        invariant
            i <= blocks@.len(),
            i <= numbers@.len(),
            parts == block_texts(text@),
            blocks@.len() == parts.len(),
            forall|j: int| i <= j < blocks@.len() ==> (#[trigger] blocks@[j])@ == block_of(
                parts[j],
            ),
            first_located(parts, numbers@, 0) == first_located(parts, numbers@, i as int),
        decreases blocks@.len() - i,
    {
        assert(blocks@[i as int]@ == block_of(parts[i as int]));
        if let (Some(ra), Some(dec)) = (numbers[i].ra, numbers[i].dec) {
            if ra.is_right_ascension() && dec.is_declination() {
                let block = blocks.remove(i);
                return Some(
                    SesameHit {
                        ra_deg: ra,
                        dec_deg: dec,
                        oname: block.oname,
                        otype: block.otype,
                        aliases: block.aliases,
                    },
                );
            }
        }
        i += 1;
    }
    None
}

// ── Identities ───────────────────────────────────────────────────────────────

/// `s` with a designation added, unless it is blank or its normalized form is
/// there.
pub open spec fn with_name(s: Seq<AliasView>, name: Seq<char>) -> Seq<AliasView> {
    let cleaned = collapsed(name);
    if cleaned.len() == 0 || has_normalized(s, normalized(cleaned)) {
        s
    } else {
        s.push(AliasView::of(cleaned, AliasKind::Designation))
    }
}

/// Add a designation, unless it is blank or its normalized form is there
/// already.
pub fn push_alias(name: &str, aliases: &mut Vec<ResolvedAlias>)
    ensures
        views(final(aliases)@) == with_name(views(old(aliases)@), name@),
{
    let cleaned = collapse_spaces(name);
    if cleaned.as_str().is_empty() {
        return ;
    }
    let form = normalize(cleaned.as_str());
    if !normalizes(aliases, form.as_str()) {
        let ghost had = aliases@;
        let item = ResolvedAlias::new(cleaned.as_str(), AliasKind::Designation);
        aliases.push(item);
        assert(views(aliases@) =~= views(had).push(item@));
    }
}

/// `s` with the first `n` of `names` added.
pub open spec fn with_names(s: Seq<AliasView>, names: Seq<Seq<char>>, n: int) -> Seq<AliasView>
    decreases n,
{
    if n <= 0 {
        s
    } else {
        with_name(with_names(s, names, n - 1), names[n - 1])
    }
}

/// The designation of a hit: its own, where it has one, else the query; white
/// space collapsed.
pub open spec fn primary_of(hit: SesameView, query: Seq<char>) -> Seq<char> {
    match hit.oname {
        Some(name) => if collapsed(name).len() > 0 {
            collapsed(name)
        } else {
            collapsed(query)
        },
        None => collapsed(query),
    }
}

/// The identity that a hit makes up.
pub open spec fn coarse_identity(hit: SesameView, query: Seq<char>) -> IdentityView {
    let primary = primary_of(hit, query);
    let otype_raw = match hit.otype {
        Some(t) => t,
        None => Seq::empty(),
    };
    IdentityView {
        simbad_oid: None,
        primary_designation: primary,
        common_name: None,
        object_type: otype_of(trimmed(otype_raw)),
        otype_raw,
        ra_deg: hit.ra_deg,
        dec_deg: hit.dec_deg,
        v_mag: None,
        galdim_majaxis_arcmin: None,
        galdim_minaxis_arcmin: None,
        galdim_angle_deg: None,
        aliases: with_names(
            with_name(Seq::empty(), primary),
            hit.aliases,
            hit.aliases.len() as int,
        ),
        source: TargetSource::Resolved,
    }
}

/// Make an identity of a hit. It has no object id, no common name and no
/// measurements: Sesame knows of none.
pub fn build_identity(hit: &SesameHit, query: &str) -> (r: ResolvedIdentity)
    ensures
        r@ == coarse_identity(hit@, query@),
{
    let named = match &hit.oname {
        Some(name) => collapse_spaces(name.as_str()),
        None => String::new(),
    };
    let primary = if named.as_str().is_empty() {
        collapse_spaces(query)
    } else {
        named
    };
    let otype_raw = match &hit.otype {
        Some(t) => t.clone(),
        None => String::new(),
    };
    proof {
        if hit.otype is None {
            assert(otype_raw@ =~= Seq::empty());
        }
    }
    let mut aliases: Vec<ResolvedAlias> = Vec::new();
    assert(views(aliases@) =~= Seq::empty());
    push_alias(primary.as_str(), &mut aliases);
    let ghost first = views(aliases@);
    let ghost names = texts(hit.aliases@);
    let mut i: usize = 0;
    while i < hit.aliases.len()
        invariant
            i <= hit.aliases@.len(),
            names == texts(hit.aliases@),
            views(aliases@) == with_names(first, names, i as int),
        decreases hit.aliases@.len() - i,
    {
        assert(names[i as int] == hit.aliases@[i as int]@);
        push_alias(hit.aliases[i].as_str(), &mut aliases);
        i += 1;
    }
    ResolvedIdentity {
        simbad_oid: None,
        primary_designation: primary,
        common_name: None,
        object_type: map_otype(otype_raw.as_str()),
        otype_raw,
        ra_deg: hit.ra_deg,
        dec_deg: hit.dec_deg,
        v_mag: None,
        galdim_majaxis_arcmin: None,
        galdim_minaxis_arcmin: None,
        galdim_angle_deg: None,
        aliases,
        source: TargetSource::Resolved,
    }
}

/// What Sesame's answer to a query comes to, given the coordinates that its
/// blocks read as.
pub fn coarse_answer(query: &str, text: &str, numbers: &Vec<BlockNumbers>) -> (r: Result<
    ResolvedIdentity,
    ResolveError,
>)
    ensures
        answer_view(r) == match first_located(block_texts(text@), numbers@, 0) {
            Some(hit) => Ok(coarse_identity(hit, query@)),
            None => Err(ErrorView::NotFound(query@)),
        },
{
    match parse_sesame_xml(text, numbers) {
        Some(hit) => Ok(build_identity(&hit, query)),
        None => Err(ResolveError::NotFound(query.to_owned())),
    }
}

/// What becomes of a coarse identity when another resolver has answered for it:
/// its answer, as a resolved one; where it failed, the coarse identity.
pub open spec fn enriched_by(
    coarse: IdentityView,
    answer: Result<IdentityView, ErrorView>,
) -> IdentityView {
    match answer {
        Ok(identity) => IdentityView { source: TargetSource::Resolved, ..identity },
        Err(_) => coarse,
    }
}

/// What becomes of a coarse identity when another resolver has answered for it.
pub fn enrich(coarse: ResolvedIdentity, answer: Result<ResolvedIdentity, ResolveError>) -> (r:
    ResolvedIdentity)
    ensures
        r@ == enriched_by(coarse@, answer_view(answer)),
{
    match answer {
        Ok(identity) => {
            let mut identity = identity;
            identity.source = TargetSource::Resolved;
            identity
        },
        Err(_) => coarse,
    }
}

/// Ask the enricher, if there is one, for the designation of a coarse identity,
/// and take its answer where it has one.
pub fn resolve_with_enrichment<R: Resolver>(
    enricher: Option<&mut R>,
    coarse: ResolvedIdentity,
) -> (r: ResolvedIdentity)
    ensures
        enricher is None ==> r@ == coarse@,
        enricher matches Some(e) ==> exists|answer: Result<IdentityView, ErrorView>|
            #![trigger enriched_by(coarse@, answer)]
            (*e).answers(coarse@.primary_designation, answer, *final(e)) && r@ == enriched_by(
                coarse@,
                answer,
            ),
{
    match enricher {
        None => coarse,
        Some(e) => {
            let answer = e.resolve(coarse.primary_designation.as_str());
            enrich(coarse, answer)
        },
    }
}

} // verus!
