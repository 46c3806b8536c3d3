//! The link file of a node: on the first line the host and port where the
//! node itself takes datagrams, then one link on each line. Lines without a
//! word are passed over.

use crate::ip::link::{spec_parse_link, LinkDefinition, ParseLinkError};
use crate::text::{
    chars_of, parse_decimal, parse_unsigned, split_at, split_fields, split_whitespace, split_words,
    string_of, words_view,
};
use vstd::prelude::*;

verus! {

/// Why a link file cannot be read.
#[derive(Clone, Copy, Debug, PartialEq, Eq, Structural)]
pub enum ParseConfigError {
    /// The file has no line with a word on it.
    NoHostLine,
    /// The first line has no port.
    NoHostPort,
    /// The port on the first line is not a port.
    MalformedHostPort,
    /// The line with this number, counted from 1, does not name a link.
    Link { line: usize, error: ParseLinkError },
}

/// One link of the file: where the peer takes datagrams, and the link.
pub struct ConfiguredLink {
    /// The host of the peer's datagram endpoint, as the file names it.
    pub peer_host: String,
    pub definition: LinkDefinition,
}

/// What a link file says.
pub struct LinkFile {
    /// The host of this node's datagram endpoint, as the file names it.
    pub host: String,
    /// The port of this node's datagram endpoint.
    pub port: u16,
    pub links: Vec<ConfiguredLink>,
}

/// A link of the file as contracts speak of it.
pub struct ConfiguredLinkView {
    pub peer_host: Seq<char>,
    pub definition: LinkDefinition,
}

/// A link file as contracts speak of it.
pub struct LinkFileView {
    pub host: Seq<char>,
    pub port: u16,
    pub links: Seq<ConfiguredLinkView>,
}

impl View for ConfiguredLink {
    type V = ConfiguredLinkView;

    open spec fn view(&self) -> ConfiguredLinkView {
        ConfiguredLinkView { peer_host: self.peer_host@, definition: self.definition }
    }
}

impl View for LinkFile {
    type V = LinkFileView;

    open spec fn view(&self) -> LinkFileView {
        LinkFileView {
            host: self.host@,
            port: self.port,
            links: self.links@.map_values(|l: ConfiguredLink| l@),
        }
    }
}

/// Whether a line has no word on it.
pub open spec fn is_blank(line: Seq<char>) -> bool {
    split_words(line).len() == 0
}

/// The index of the first line at or after `i` that has a word on it, or
/// the number of lines.
pub open spec fn next_line(lines: Seq<Seq<char>>, i: int) -> int
    decreases lines.len() - i,
{
    if i < 0 || i >= lines.len() {
        lines.len() as int
    } else if !is_blank(lines[i]) {
        i
    } else {
        next_line(lines, i + 1)
    }
}

/// The links that the lines from `i` on name, or the first fault among them.
pub open spec fn links_from(lines: Seq<Seq<char>>, i: int) -> Result<
    Seq<ConfiguredLinkView>,
    ParseConfigError,
>
    decreases lines.len() - i,
{
    if i < 0 || i >= lines.len() {
        Ok(Seq::empty())
    } else if is_blank(lines[i]) {
        links_from(lines, i + 1)
    } else {
        match spec_parse_link(lines[i]) {
            Err(error) => Err(ParseConfigError::Link { line: (i + 1) as usize, error }),
            Ok(definition) => match links_from(lines, i + 1) {
                Err(e) => Err(e),
                Ok(rest) => Ok(
                    seq![ConfiguredLinkView { peer_host: split_words(lines[i])[0], definition }]
                        + rest,
                ),
            },
        }
    }
}

/// What the lines of a link file say.
pub open spec fn spec_parse_lines(lines: Seq<Seq<char>>) -> Result<LinkFileView, ParseConfigError> {
    let h = next_line(lines, 0);
    if h >= lines.len() {
        Err(ParseConfigError::NoHostLine)
    } else {
        let words = split_words(lines[h]);
        if words.len() < 2 {
            Err(ParseConfigError::NoHostPort)
        } else {
            match parse_unsigned(words[1], 0xffff) {
                None => Err(ParseConfigError::MalformedHostPort),
                Some(port) => match links_from(lines, h + 1) {
                    Err(e) => Err(e),
                    Ok(links) => Ok(LinkFileView { host: words[0], port: port as u16, links }),
                },
            }
        }
    }
}

/// What the text of a link file says.
pub open spec fn spec_parse_link_file(text: Seq<char>) -> Result<LinkFileView, ParseConfigError> {
    spec_parse_lines(split_fields(text, '\n'))
}

/// `found`, then what `rest` names, where `rest` names anything.
pub open spec fn then_links(
    found: Seq<ConfiguredLinkView>,
    rest: Result<Seq<ConfiguredLinkView>, ParseConfigError>,
) -> Result<Seq<ConfiguredLinkView>, ParseConfigError> {
    match rest {
        Ok(r) => Ok(found + r),
        Err(e) => Err(e),
    }
}

/// The view of a result.
pub open spec fn file_view(r: Result<LinkFile, ParseConfigError>) -> Result<
    LinkFileView,
    ParseConfigError,
> {
    match r {
        Ok(f) => Ok(f@),
        Err(e) => Err(e),
    }
}

/// Reads the links that the lines from `from` on name.
#[verifier::rlimit(40)]
fn read_links(lines: &Vec<Vec<char>>, from: usize) -> (r: Result<Vec<ConfiguredLink>, ParseConfigError>)
    requires
        from <= lines@.len(),
    ensures
        match r {
            Ok(links) => links_from(words_view(lines@), from as int) == Ok::<
                Seq<ConfiguredLinkView>,
                ParseConfigError,
            >(links@.map_values(|l: ConfiguredLink| l@)),
            Err(e) => links_from(words_view(lines@), from as int) == Err::<
                Seq<ConfiguredLinkView>,
                ParseConfigError,
            >(e),
        },
{
    let ghost all = words_view(lines@);
    let mut links: Vec<ConfiguredLink> = Vec::new();
    let mut i: usize = from;
    assert(links@.map_values(|l: ConfiguredLink| l@) =~= Seq::empty());
    while i < lines.len()
        invariant
            from <= i <= lines@.len(),
            all == words_view(lines@),
            then_links(links@.map_values(|l: ConfiguredLink| l@), links_from(all, i as int))
                == links_from(all, from as int),
        decreases lines@.len() - i,
    {
        let line = lines[i].as_slice();
        assert(all[i as int] == line@);
        let words = split_whitespace(line);
        assert(words_view(words@).len() == words@.len());
        if words.len() > 0 {
            assert(words_view(words@)[0] == words@[0]@);
            match LinkDefinition::parse_chars(line) {
                Err(error) => {
                    return Err(ParseConfigError::Link { line: i + 1, error });
                },
                Ok(definition) => {
                    let link = ConfiguredLink {
                        peer_host: string_of(words[0].as_slice()),
                        definition,
                    };
                    proof {
                        let found = links@.map_values(|l: ConfiguredLink| l@);
                        assert(links@.push(link).map_values(|l: ConfiguredLink| l@) =~= found.push(
                            link@,
                        ));
                        match links_from(all, i + 1) {
                            Ok(rest) => {
                                assert(found.push(link@) + rest =~= found + (seq![link@] + rest));
                            },
                            Err(_) => {},
                        }
                    }
                    links.push(link);
                },
            }
        }
        i += 1;
    }
    proof {
        let found = links@.map_values(|l: ConfiguredLink| l@);
        assert(found + Seq::<ConfiguredLinkView>::empty() =~= found);
    }
    Ok(links)
}

/// Reads the text of a link file.
pub fn parse_link_file(text: &str) -> (r: Result<LinkFile, ParseConfigError>)
    ensures
        file_view(r) == spec_parse_link_file(text@),
{
    let chars = chars_of(text);
    let lines = split_at(chars.as_slice(), '\n');
    let ghost all = words_view(lines@);
    let mut h: usize = 0;
    while h < lines.len()
        invariant
            h <= lines@.len(),
            all == words_view(lines@),
            all == split_fields(text@, '\n'),
            next_line(all, h as int) == next_line(all, 0),
        decreases lines@.len() - h,
    {
        assert(all[h as int] == lines@[h as int]@);
        let words = split_whitespace(lines[h].as_slice());
        assert(words_view(words@).len() == words@.len());
        if words.len() > 0 {
            assert(forall|k: int| 0 <= k < words@.len() ==> words_view(words@)[k] == words@[k]@);
            if words.len() < 2 {
                return Err(ParseConfigError::NoHostPort);
            }
            let port = match parse_decimal(words[1].as_slice(), 0xffff) {
                Some(p) => p as u16,
                None => {
                    return Err(ParseConfigError::MalformedHostPort);
                },
            };
            let links = match read_links(&lines, h + 1) {
                Ok(l) => l,
                Err(e) => {
                    return Err(e);
                },
            };
            return Ok(LinkFile { host: string_of(words[0].as_slice()), port, links });
        }
        h += 1;
    }
    Err(ParseConfigError::NoHostLine)
}

} // verus!
