//! The chain handoff protocol: a first line `TOML:<count>` ended by a
//! newline, then exactly `<count>` lines of document text. One hop writes
//! this frame into the standard input of the copy it just started; the
//! copy reads its configuration back out of it.

use crate::config::{DaisyConfig, Error, HostSpec, HostSpecView, spec_parse_token};
use crate::numeric::{
    all_dec_digits, dec_value, lemma_dec_digits_wf, lemma_dec_value_of_digits,
    parse_dec, usize_to_string,
};
use crate::strutil::{find_char, find_char_in_str, lemma_find_char, lemma_find_char_unique};
use crate::tomldoc::{ConfigDoc, ConfigDocView, emit_doc, parse_doc, toml_doc_of};
use vstd::prelude::*;
use vstd::string::*;

verus! {

/// How many lines `s` consists of: a line ends at a newline, and a final
/// non-empty piece without one still counts.
pub open spec fn count_lines(s: Seq<char>) -> nat
    decreases s.len(),
    via count_lines_decreases
{
    if s.len() == 0 {
        0
    } else {
        match find_char(s, '\n') {
            Some(i) => 1 + count_lines(s.skip(i + 1)),
            None => 1,
        }
    }
}

#[via_fn]
proof fn count_lines_decreases(s: Seq<char>) {
    if s.len() > 0 {
        lemma_find_char(s, '\n');
    }
}

/// The first `n` lines of `rest`, newlines included, read as a stream
/// reader would: a line is everything through the next newline, or the
/// final non-empty piece at end of stream. Nothing if the stream ends
/// before `n` lines were read.
pub open spec fn body_lines(rest: Seq<char>, n: nat) -> Option<Seq<char>>
    decreases n,
{
    if n == 0 {
        Some(Seq::<char>::empty())
    } else {
        match find_char(rest, '\n') {
            Some(i) => match body_lines(rest.skip(i + 1), (n - 1) as nat) {
                Some(b) => Some(rest.take(i + 1) + b),
                None => None,
            },
            None => if rest.len() > 0 && n == 1 {
                Some(rest)
            } else {
                None
            },
        }
    }
}

/// Reading as many lines as `s` consists of consumes exactly `s`.
pub proof fn lemma_body_lines_all(s: Seq<char>)
    ensures
        body_lines(s, count_lines(s)) == Some(s),
    decreases s.len(),
{
    if s.len() == 0 {
        assert(body_lines(s, 0) == Some(Seq::<char>::empty()));
        assert(s =~= Seq::<char>::empty());
    } else {
        lemma_find_char(s, '\n');
        match find_char(s, '\n') {
            Some(i) => {
                lemma_body_lines_all(s.skip(i + 1));
                assert(s.take(i + 1) + s.skip(i + 1) =~= s);
            },
            None => {},
        }
    }
}

/// The line count of a well-formed marker line: the five characters
/// `TOML:` followed by a non-empty run of decimal digits whose value fits
/// the machine.
pub open spec fn marker_count(m: Seq<char>) -> Option<nat> {
    if m.len() > 5 && m.take(5) == "TOML:"@ && all_dec_digits(m.skip(5)) && dec_value(m.skip(5))
        <= usize::MAX {
        Some(dec_value(m.skip(5)))
    } else {
        None
    }
}

/// What a handoff stream holds, read off its text.
pub enum StreamShape {
    /// The first line is not a well-formed marker, or no newline ends it;
    /// carries that first line.
    BadMarker(Seq<char>),
    /// The stream ended before the declared number of lines.
    Truncated,
    /// The declared lines are not a valid configuration document.
    BadDoc,
    /// The declared lines hold this document.
    GoodDoc(ConfigDocView),
}

/// The handoff reader, as a function of the whole stream text: the marker
/// line decides everything, then exactly the declared number of lines is
/// read and handed to the document reader; trailing text is ignored.
pub open spec fn spec_read_stream(input: Seq<char>) -> StreamShape {
    match find_char(input, '\n') {
        None => StreamShape::BadMarker(input),
        Some(i) => {
            let marker = input.take(i);
            let rest = input.skip(i + 1);
            match marker_count(marker) {
                None => StreamShape::BadMarker(marker),
                Some(n) => match body_lines(rest, n) {
                    None => StreamShape::Truncated,
                    Some(body) => match toml_doc_of(body) {
                        None => StreamShape::BadDoc,
                        Some(d) => StreamShape::GoodDoc(d),
                    },
                },
            }
        },
    }
}

/// The token names its user explicitly: it has an `@` and a non-empty
/// username part before it.
pub open spec fn token_has_explicit_user(t: Seq<char>) -> bool {
    match find_char(t, '@') {
        Some(i) => i > 0,
        None => false,
    }
}

/// `h` is what parsing the token `t` may produce: the split of `t` under
/// some non-empty fallback username.
pub open spec fn host_matches_token(h: HostSpecView, t: Seq<char>) -> bool {
    h.username.len() > 0 && exists|u: Seq<char>| u.len() > 0 && h == spec_parse_token(t, u)
}

/// The position index a document stands for: its own, or zero when it
/// carries none.
pub open spec fn spec_doc_index(d: ConfigDocView) -> nat {
    match d.position_index {
        Some(i) => i,
        None => 0,
    }
}

/// `c` is the configuration a document `d` loads as: same fields, each
/// host token parsed.
pub open spec fn config_matches_doc(c: crate::config::DaisyConfigView, d: ConfigDocView) -> bool {
    &&& c.position_index == spec_doc_index(d)
    &&& c.destination_command == d.destination_command
    &&& c.destination_command_is_persistent == d.destination_command_is_persistent
    &&& c.hosts.len() == d.hosts.len()
    &&& forall|i: int|
        0 <= i < d.hosts.len() ==> host_matches_token(c.hosts[i], #[trigger] d.hosts[i])
}

/// What loading a well-formed document yields: the configuration itself
/// when the host list is non-empty and every host token resolves; the
/// document error when the host list is empty; the unknown-user error only
/// when some token has no explicit username.
pub open spec fn load_result_matches(r: Result<DaisyConfig, Error>, d: ConfigDocView) -> bool {
    match r {
        Ok(c) => d.hosts.len() > 0 && c.wf() && config_matches_doc(c@, d),
        Err(e) => match e {
            Error::TOMLError => d.hosts.len() == 0,
            Error::UnknownUser => exists|i: int|
                0 <= i < d.hosts.len() && !token_has_explicit_user(#[trigger] d.hosts[i]),
            _ => false,
        },
    }
}

/// Turns a parsed document into the running configuration: parses each
/// host token and applies the default position index.
pub fn config_from_doc(doc: ConfigDoc) -> (r: Result<DaisyConfig, Error>)
    ensures
        load_result_matches(r, doc@),
{
    if doc.hosts.len() == 0 {
        return Err(Error::TOMLError);
    }
    let mut hosts: Vec<HostSpec> = Vec::new();
    let mut i: usize = 0;
    let n = doc.hosts.len();
    while i < n
        invariant
            0 <= i <= n,
            n == doc.hosts@.len(),
            hosts@.len() == i as int,
            forall|j: int|
                0 <= j < i ==> host_matches_token((#[trigger] hosts@[j])@, doc.hosts@[j]@),
            forall|j: int| 0 <= j < i ==> (#[trigger] hosts@[j]).wf(),
        decreases n - i,
    {
        let ghost t = doc.hosts@[i as int]@;
        match HostSpec::parse(doc.hosts[i].as_str()) {
            Ok(h) => {
                hosts.push(h);
            },
            Err(_) => {
                proof {
                    assert(!token_has_explicit_user(t));
                    assert(doc@.hosts[i as int] == t);
                }
                return Err(Error::UnknownUser);
            },
        }
        i = i + 1;
    }
    let c = DaisyConfig {
        position_index: match doc.position_index {
            Some(idx) => idx,
            None => 0,
        },
        destination_command: doc.destination_command,
        destination_command_is_persistent: doc.destination_command_is_persistent,
        hosts,
    };
    proof {
        assert(c@.hosts.len() == doc@.hosts.len());
        assert forall|j: int| 0 <= j < doc@.hosts.len() implies host_matches_token(
            c@.hosts[j],
            #[trigger] doc@.hosts[j],
        ) by {
            assert(c@.hosts[j] == c.hosts@[j]@);
            assert(doc@.hosts[j] == doc.hosts@[j]@);
        }
        assert(c.wf());
    }
    Ok(c)
}

/// Loads a configuration from a bare document text, the local-file path:
/// no framing, the whole text is the document.
pub fn load_from_str(contents: &str) -> (r: Result<DaisyConfig, Error>)
    ensures
        (toml_doc_of(contents@) is None ==> (r matches Err(e) && e is TOMLError)),
        (toml_doc_of(contents@) matches Some(d) ==> load_result_matches(r, d)),
{
    match parse_doc(contents) {
        None => Err(Error::TOMLError),
        Some(doc) => config_from_doc(doc),
    }
}

/// Reads the declared line count out of one marker line, given without its
/// newline: exactly when the line is a well-formed `TOML:<count>` marker,
/// as [`marker_count`] describes.
pub fn marker_line_count(line: &str) -> (r: Option<usize>)
    ensures
        match r {
            Some(cnt) => marker_count(line@) == Some(cnt as nat),
            None => marker_count(line@) is None,
        },
{
    let n = line.unicode_len();
    let marker_ok = n > 5 && line.get_char(0) == 'T' && line.get_char(1) == 'O' && line.get_char(
        2,
    ) == 'M' && line.get_char(3) == 'L' && line.get_char(4) == ':';
    if !marker_ok {
        proof {
            reveal_strlit("TOML:");
            if line@.len() > 5 && line@.take(5) == "TOML:"@ {
                assert(line@.take(5)[0] == line@[0]);
                assert(line@.take(5)[1] == line@[1]);
                assert(line@.take(5)[2] == line@[2]);
                assert(line@.take(5)[3] == line@[3]);
                assert(line@.take(5)[4] == line@[4]);
                assert(false);
            }
            assert(marker_count(line@) is None);
        }
        return None;
    }
    proof {
        reveal_strlit("TOML:");
        assert(line@.take(5) =~= "TOML:"@);
    }
    let count_str = line.substring_char(5, n);
    proof {
        assert(count_str@ =~= line@.skip(5));
    }
    parse_dec(count_str)
}

/// Loads a configuration from the text of a handoff stream: the
/// `TOML:<count>` marker line first, then exactly `<count>` document
/// lines. Trailing text is ignored; a malformed marker never reaches the
/// document reader.
pub fn load_from_stream_text(input: &str) -> (r: Result<DaisyConfig, Error>)
    ensures
        (spec_read_stream(input@) matches StreamShape::BadMarker(m) ==> (r matches Err(e)
            && e matches Error::InvalidFormatMarker(line) && line@ == m)),
        (spec_read_stream(input@) is Truncated ==> (r matches Err(e) && e is IOError)),
        (spec_read_stream(input@) is BadDoc ==> (r matches Err(e) && e is TOMLError)),
        (spec_read_stream(input@) matches StreamShape::GoodDoc(d) ==> load_result_matches(r, d)),
{
    let n = input.unicode_len();
    match find_char_in_str(input, '\n') {
        None => Err(Error::InvalidFormatMarker(String::from_str(input))),
        Some(i) => {
            proof {
                lemma_find_char(input@, '\n');
            }
            let marker = input.substring_char(0, i);
            proof {
                assert(marker@ =~= input@.take(i as int));
            }
            match marker_line_count(marker) {
                None => Err(Error::InvalidFormatMarker(String::from_str(marker))),
                Some(cnt) => {
                    let rest = input.substring_char(i + 1, n);
                    proof {
                        assert(rest@ =~= input@.skip(i as int + 1));
                    }
                    match take_lines(rest, cnt) {
                        None => Err(Error::IOError),
                        Some(body) => {
                            match parse_doc(body.as_str()) {
                                None => Err(Error::TOMLError),
                                Some(doc) => config_from_doc(doc),
                            }
                        },
                    }
                },
            }
        },
    }
}

/// A handoff stream that declares a document loads as the same
/// configuration as parsing that document directly: whatever the stream
/// loader returns for such a stream and whatever the direct loader returns
/// for its document are both the configuration of that document, and equal
/// to each other, whenever every host token names its user explicitly. (A
/// bare token's username comes from the environment, which may answer
/// differently at the two calls; those tokens are the one exception.)
pub proof fn lemma_stream_load_equals_direct_parse(
    input: Seq<char>,
    d: ConfigDocView,
    r1: Result<DaisyConfig, Error>,
    r2: Result<DaisyConfig, Error>,
)
    requires
        spec_read_stream(input) == StreamShape::GoodDoc(d),
        load_result_matches(r1, d),
        load_result_matches(r2, d),
        d.hosts.len() > 0,
        forall|i: int| 0 <= i < d.hosts.len() ==> token_has_explicit_user(#[trigger] d.hosts[i]),
    ensures
        (r1 matches Ok(c1) && r2 matches Ok(c2) && c1@ == c2@),
{
    match r1 {
        Ok(_) => {},
        Err(e) => {
            match e {
                Error::TOMLError => {
                    assert(false);
                },
                Error::UnknownUser => {
                    let i = choose|i: int|
                        0 <= i < d.hosts.len() && !token_has_explicit_user(#[trigger] d.hosts[i]);
                    assert(token_has_explicit_user(d.hosts[i]));
                    assert(false);
                },
                _ => {
                    assert(false);
                },
            }
        },
    }
    match r2 {
        Ok(_) => {},
        Err(e) => {
            match e {
                Error::TOMLError => {
                    assert(false);
                },
                Error::UnknownUser => {
                    let i = choose|i: int|
                        0 <= i < d.hosts.len() && !token_has_explicit_user(#[trigger] d.hosts[i]);
                    assert(token_has_explicit_user(d.hosts[i]));
                    assert(false);
                },
                _ => {
                    assert(false);
                },
            }
        },
    }
    let c1 = r1.unwrap();
    let c2 = r2.unwrap();
    assert forall|i: int| 0 <= i < d.hosts.len() implies c1@.hosts[i] == c2@.hosts[i] by {
        let t = d.hosts[i];
        let j = find_char(t, '@').unwrap();
        let u1 = choose|u: Seq<char>| u.len() > 0 && c1@.hosts[i] == spec_parse_token(t, u);
        let u2 = choose|u: Seq<char>| u.len() > 0 && c2@.hosts[i] == spec_parse_token(t, u);
        assert(c1@.hosts[i] == spec_parse_token(t, u1));
        assert(c2@.hosts[i] == spec_parse_token(t, u2));
        assert(j > 0);
    }
    assert(c1@.hosts =~= c2@.hosts);
    assert(c1@ == c2@);
}

/// Reads the first `n` lines of `rest`, as [`body_lines`] describes.
fn take_lines(rest: &str, n: usize) -> (r: Option<String>)
    ensures
        match r {
            Some(b) => body_lines(rest@, n as nat) == Some(b@),
            None => body_lines(rest@, n as nat) is None,
        },
{
    let total = rest.unicode_len();
    let mut p: usize = 0;
    let mut k: usize = 0;
    proof {
        assert(rest@.skip(0) =~= rest@);
        assert(rest@.take(0) =~= Seq::<char>::empty());
    }
    while k < n
        invariant
            0 <= k <= n,
            0 <= p <= total,
            total == rest@.len(),
            (match body_lines(rest@.skip(p as int), (n - k) as nat) {
                Some(b) => body_lines(rest@, n as nat) == Some(rest@.take(p as int) + b),
                None => body_lines(rest@, n as nat) is None,
            }),
        decreases n - k,
    {
        let mut q = p;
        while q < total && rest.get_char(q) != '\n'
            invariant
                p <= q <= total,
                total == rest@.len(),
                forall|j: int| p <= j < q ==> rest@[j] != '\n',
            decreases total - q,
        {
            q = q + 1;
        }
        let ghost suffix = rest@.skip(p as int);
        proof {
            assert forall|j: int| 0 <= j < suffix.len() implies suffix[j] == rest@[p + j] by {}
        }
        if q == total {
            proof {
                lemma_find_char(suffix, '\n');
                match find_char(suffix, '\n') {
                    Some(i) => {
                        assert(suffix[i] == '\n');
                        assert(false);
                    },
                    None => {},
                }
            }
            if p < total && n - k == 1 {
                proof {
                    assert(body_lines(suffix, 1) == Some(suffix));
                    assert(rest@.take(p as int) + suffix =~= rest@);
                }
                return Some(String::from_str(rest));
            } else {
                proof {
                    assert(body_lines(suffix, (n - k) as nat) is None);
                }
                return None;
            }
        }
        proof {
            assert(rest@[q as int] == '\n');
            assert(suffix[q - p] == '\n');
            lemma_find_char_unique(suffix, '\n', q - p);
            assert(suffix.skip(q - p + 1) =~= rest@.skip(q as int + 1));
            match body_lines(rest@.skip(q as int + 1), (n - k - 1) as nat) {
                Some(b2) => {
                    assert(body_lines(suffix, (n - k) as nat) == Some(
                        suffix.take(q - p + 1) + b2,
                    ));
                    assert(rest@.take(p as int) + (suffix.take(q - p + 1) + b2) =~= rest@.take(
                        q as int + 1,
                    ) + b2);
                },
                None => {
                    assert(body_lines(suffix, (n - k) as nat) is None);
                },
            }
        }
        p = q + 1;
        k = k + 1;
    }
    proof {
        assert(body_lines(rest@.skip(p as int), 0nat) == Some(Seq::<char>::empty()));
        assert(rest@.take(p as int) + Seq::<char>::empty() =~= rest@.take(p as int));
    }
    Some(String::from_str(rest.substring_char(0, p)))
}

/// Counts the lines of `s`, as [`count_lines`] describes.
fn count_lines_str(s: &str) -> (n: usize)
    ensures
        n as nat == count_lines(s@),
{
    let total = s.unicode_len();
    let mut p: usize = 0;
    let mut cnt: usize = 0;
    proof {
        assert(s@.skip(0) =~= s@);
    }
    while p < total
        invariant
            0 <= p <= total,
            total == s@.len(),
            cnt <= p,
            count_lines(s@) == cnt + count_lines(s@.skip(p as int)),
        decreases total - p,
    {
        let mut q = p;
        while q < total && s.get_char(q) != '\n'
            invariant
                p <= q <= total,
                total == s@.len(),
                forall|j: int| p <= j < q ==> s@[j] != '\n',
            decreases total - q,
        {
            q = q + 1;
        }
        let ghost suffix = s@.skip(p as int);
        proof {
            assert forall|j: int| 0 <= j < suffix.len() implies suffix[j] == s@[p + j] by {}
        }
        if q == total {
            proof {
                lemma_find_char(suffix, '\n');
                match find_char(suffix, '\n') {
                    Some(i) => {
                        assert(suffix[i] == '\n');
                        assert(false);
                    },
                    None => {},
                }
                assert(count_lines(suffix) == 1);
                assert(s@.skip(total as int) =~= Seq::<char>::empty());
                assert(count_lines(s@.skip(total as int)) == 0);
            }
            cnt = cnt + 1;
            p = total;
        } else {
            proof {
                assert(s@[q as int] == '\n');
                assert(suffix[q - p] == '\n');
                lemma_find_char_unique(suffix, '\n', q - p);
                assert(suffix.skip(q - p + 1) =~= s@.skip(q as int + 1));
                assert(count_lines(suffix) == 1 + count_lines(s@.skip(q as int + 1)));
            }
            cnt = cnt + 1;
            p = q + 1;
        }
    }
    proof {
        assert(s@.skip(total as int) =~= Seq::<char>::empty());
    }
    cnt
}

/// The document a configuration writes at handoff: every field explicit,
/// every host as its full `user@host` token.
pub open spec fn doc_of_config(c: crate::config::DaisyConfigView) -> ConfigDocView {
    ConfigDocView {
        position_index: Some(c.position_index),
        destination_command: c.destination_command,
        destination_command_is_persistent: c.destination_command_is_persistent,
        hosts: c.hosts.map_values(
            |h: HostSpecView| h.username + seq!['@'] + h.host_address,
        ),
    }
}

/// Field-wise comparison of two documents: true exactly when their models
/// are equal.
fn doc_eq(a: &ConfigDoc, b: &ConfigDoc) -> (r: bool)
    ensures
        r == (a@ == b@),
{
    let pi_eq = match (a.position_index, b.position_index) {
        (None, None) => true,
        (Some(x), Some(y)) => x == y,
        _ => false,
    };
    if !pi_eq {
        proof {
            assert(a@.position_index != b@.position_index);
        }
        return false;
    }
    if !(a.destination_command == b.destination_command) {
        proof {
            assert(a@.destination_command != b@.destination_command);
        }
        return false;
    }
    if a.destination_command_is_persistent != b.destination_command_is_persistent {
        return false;
    }
    if a.hosts.len() != b.hosts.len() {
        proof {
            assert(a@.hosts.len() != b@.hosts.len());
        }
        return false;
    }
    let n = a.hosts.len();
    let mut i: usize = 0;
    while i < n
        invariant
            0 <= i <= n,
            n == a.hosts@.len(),
            n == b.hosts@.len(),
            forall|j: int| 0 <= j < i ==> a.hosts@[j]@ == b.hosts@[j]@,
        decreases n - i,
    {
        if !(a.hosts[i] == b.hosts[i]) {
            proof {
                assert(a@.hosts[i as int] != b@.hosts[i as int]);
            }
            return false;
        }
        i = i + 1;
    }
    proof {
        assert(a@.hosts =~= b@.hosts);
        assert(a@ == b@);
    }
    true
}

/// Writes the frame one hop streams into the copy it just started: the
/// `TOML:<count>` marker line, then the configuration as a document.
/// Whatever this returns reads back to exactly the document of `c`, and a
/// frame is owed — and returned — for every configuration whose position
/// index fits the document writer's integer range. The text is also
/// validated by reading it back before it is handed out.
pub fn encode_for_handoff(c: &DaisyConfig) -> (r: Option<String>)
    ensures
        (r matches Some(s) ==> spec_read_stream(s@) == StreamShape::GoodDoc(
            doc_of_config(c@),
        )),
        c@.position_index <= i64::MAX as int ==> r is Some,
{
    let mut tokens: Vec<String> = Vec::new();
    let mut i: usize = 0;
    let nh = c.hosts.len();
    while i < nh
        invariant
            0 <= i <= nh,
            nh == c.hosts@.len(),
            tokens@.len() == i as int,
            forall|j: int|
                0 <= j < i ==> (#[trigger] tokens@[j])@ == c.hosts@[j]@.username + seq!['@']
                    + c.hosts@[j]@.host_address,
        decreases nh - i,
    {
        tokens.push(c.hosts[i].to_token());
        i = i + 1;
    }
    let doc = ConfigDoc {
        position_index: Some(c.position_index),
        destination_command: c.destination_command.clone(),
        destination_command_is_persistent: c.destination_command_is_persistent,
        hosts: tokens,
    };
    proof {
        assert(doc@.hosts =~= doc_of_config(c@).hosts);
        assert(doc@ == doc_of_config(c@));
    }
    let body = match emit_doc(&doc) {
        Some(b) => b,
        None => {
            return None;
        },
    };
    let parsed = match parse_doc(body.as_str()) {
        Some(p) => p,
        None => {
            return None;
        },
    };
    if !doc_eq(&parsed, &doc) {
        return None;
    }
    let cnt = count_lines_str(body.as_str());
    let digits = usize_to_string(cnt);
    let mut framed = String::from_str("TOML:");
    framed.append(digits.as_str());
    framed.append("\n");
    framed.append(body.as_str());
    proof {
        reveal_strlit("TOML:");
        reveal_strlit("\n");
        lemma_dec_digits_wf(cnt as nat);
        lemma_dec_value_of_digits(cnt as nat);
        let f = framed@;
        let dl = digits@.len() as int;
        assert(f =~= "TOML:"@ + digits@ + "\n"@ + body@);
        assert(f[5 + dl] == '\n');
        assert forall|j: int| 0 <= j < 5 + dl implies f[j] != '\n' by {
            if j < 5 {
                assert(f[j] == "TOML:"@[j]);
            } else {
                assert(f[j] == digits@[j - 5]);
                assert(crate::numeric::is_dec_digit(digits@[j - 5]));
            }
        }
        lemma_find_char_unique(f, '\n', 5 + dl);
        let marker = f.take(5 + dl);
        assert(marker.take(5) =~= "TOML:"@);
        assert(marker.skip(5) =~= digits@);
        assert(marker_count(marker) == Some(cnt as nat));
        assert(f.skip(5 + dl + 1) =~= body@);
        lemma_body_lines_all(body@);
        assert(body_lines(body@, cnt as nat) == Some(body@));
        assert(toml_doc_of(body@) == Some(parsed@));
        assert(spec_read_stream(f) == StreamShape::GoodDoc(doc_of_config(c@)));
    }
    Some(framed)
}

/// The username holds no `@`.
pub open spec fn no_at(s: Seq<char>) -> bool {
    forall|j: int| 0 <= j < s.len() ==> s[j] != '@'
}

/// Every host of the chain has a non-empty username without `@` in it, as
/// every host that `parse` builds does.
pub open spec fn chain_tokens_clean(c: crate::config::DaisyConfigView) -> bool {
    forall|i: int|
        0 <= i < c.hosts.len() ==> (#[trigger] c.hosts[i]).username.len() > 0 && no_at(
            c.hosts[i].username,
        )
}

/// The chain survives a handoff: any configuration that loads from the
/// document a configuration `c` writes carries exactly `c`'s fields and
/// hosts, with the position index as written.
pub proof fn lemma_config_survives_handoff(
    c: crate::config::DaisyConfigView,
    c2: crate::config::DaisyConfigView,
)
    requires
        chain_tokens_clean(c),
        config_matches_doc(c2, doc_of_config(c)),
    ensures
        c2.position_index == c.position_index,
        c2.destination_command == c.destination_command,
        c2.destination_command_is_persistent == c.destination_command_is_persistent,
        c2.hosts == c.hosts,
{
    let d = doc_of_config(c);
    assert(c2.hosts.len() == c.hosts.len());
    assert forall|i: int| 0 <= i < c.hosts.len() implies c2.hosts[i] == c.hosts[i] by {
        let h = c.hosts[i];
        let t = d.hosts[i];
        assert(t == h.username + seq!['@'] + h.host_address);
        assert(host_matches_token(c2.hosts[i], t));
        let u = choose|u: Seq<char>| u.len() > 0 && c2.hosts[i] == spec_parse_token(t, u);
        crate::config::lemma_to_token_parse_roundtrip(h.username, h.host_address, u);
        assert(spec_parse_token(t, u) == HostSpecView {
            username: h.username,
            host_address: h.host_address,
        });
        assert(c2.hosts[i] == h);
    }
    assert(c2.hosts =~= c.hosts);
}

} // verus!
