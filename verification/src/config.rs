//! The node's configuration, and the text file it is read from.
//!
//! The file holds one setting per line:
//! - the local address, `ipAddrV4:port`;
//! - the contact nodes, a comma separated list of `ipAddrV4:port`;
//! - the active and passive random walk lengths, `ARWL,PRWL`;
//! - the active and passive view sizes, `AV,PV`;
//! - the shuffle period, in seconds;
//! - the number of active and passive node ids sent in a SHUFFLE, `AV,PV`.

use vstd::prelude::*;

use crate::net::{parse_socket_addr, SocketAddr};
use crate::text::{parse_u8, parse_u8_spec, split_bytes, split_on, trim, trim_bytes};

verus! {

/// Everything a node needs to know to take part in the overlay.
#[derive(Clone, Debug)]
pub struct Config {
    pub local_addr: SocketAddr,
    pub contact_nodes: Vec<SocketAddr>,
    pub active_random_walk_length: u8,
    pub passive_random_walk_length: u8,
    pub active_view_size: u8,
    pub passive_view_size: u8,
    pub shuffle_period_seconds: u8,
    pub shuffle_active_view_count: u8,
    pub shuffle_passive_view_count: u8,
    pub shuffle_walk_length: u8,
}

/// A configuration as plain values.
pub struct ConfigView {
    pub local_addr: SocketAddr,
    pub contact_nodes: Seq<SocketAddr>,
    pub active_random_walk_length: u8,
    pub passive_random_walk_length: u8,
    pub active_view_size: u8,
    pub passive_view_size: u8,
    pub shuffle_period_seconds: u8,
    pub shuffle_active_view_count: u8,
    pub shuffle_passive_view_count: u8,
    pub shuffle_walk_length: u8,
}

impl View for Config {
    type V = ConfigView;

    open spec fn view(&self) -> ConfigView {
        ConfigView {
            local_addr: self.local_addr,
            contact_nodes: self.contact_nodes@,
            active_random_walk_length: self.active_random_walk_length,
            passive_random_walk_length: self.passive_random_walk_length,
            active_view_size: self.active_view_size,
            passive_view_size: self.passive_view_size,
            shuffle_period_seconds: self.shuffle_period_seconds,
            shuffle_active_view_count: self.shuffle_active_view_count,
            shuffle_passive_view_count: self.shuffle_passive_view_count,
            shuffle_walk_length: self.shuffle_walk_length,
        }
    }
}

/// Why a configuration file could not be read.
#[derive(Clone, Copy, Debug, PartialEq, Eq, Structural)]
pub enum ConfigError {
    /// The file ends before all six lines.
    MissingLine,
    /// The local address or a contact node is not `ipAddrV4:port`.
    MalformedAddress,
    /// A number is missing or is not a byte written in decimal.
    ExpectedInt,
}

/// The lines of a text: the pieces between line feeds, where a final line
/// feed ends the last line rather than starting an empty one.
pub open spec fn file_lines(text: Seq<u8>) -> Seq<Seq<u8>> {
    let pieces = split_on(text, 10);
    if pieces.last().len() == 0 {
        pieces.drop_last()
    } else {
        pieces
    }
}

/// A line `x,y` of two bytes in decimal: the line is trimmed and split at
/// commas, and the first two pieces are read as they are.
pub open spec fn parse_int_pair_spec(line: Seq<u8>) -> Option<(u8, u8)> {
    let v = split_on(trim(line), 44);
    if v.len() < 2 {
        None
    } else {
        match (parse_u8_spec(v[0]), parse_u8_spec(v[1])) {
            (Some(a), Some(b)) => Some((a, b)),
            _ => None,
        }
    }
}

/// The addresses written by the pieces of a list, each trimmed.
pub open spec fn parse_addr_list_spec(pieces: Seq<Seq<u8>>) -> Option<Seq<SocketAddr>>
    decreases pieces.len(),
{
    if pieces.len() == 0 {
        Some(Seq::<SocketAddr>::empty())
    } else {
        match (parse_addr_list_spec(pieces.drop_last()), parse_socket_addr(trim(pieces.last()))) {
            (Some(l), Some(a)) => Some(l.push(a)),
            _ => None,
        }
    }
}

/// The configuration that a file holds, or the first fault met reading it
/// line by line. The shuffle walk length, which the file does not carry, is
/// the active random walk length.
pub open spec fn parse_config_spec(text: Seq<u8>) -> core::result::Result<ConfigView, ConfigError> {
    let lines = file_lines(text);
    if lines.len() < 1 {
        Err(ConfigError::MissingLine)
    } else {
        match parse_socket_addr(trim(lines[0])) {
            None => Err(ConfigError::MalformedAddress),
            Some(local_addr) => if lines.len() < 2 {
                Err(ConfigError::MissingLine)
            } else {
                match parse_addr_list_spec(split_on(lines[1], 44)) {
                    None => Err(ConfigError::MalformedAddress),
                    Some(contact_nodes) => if lines.len() < 3 {
                        Err(ConfigError::MissingLine)
                    } else {
                        match parse_int_pair_spec(lines[2]) {
                            None => Err(ConfigError::ExpectedInt),
                            Some((arwl, prwl)) => if lines.len() < 4 {
                                Err(ConfigError::MissingLine)
                            } else {
                                match parse_int_pair_spec(lines[3]) {
                                    None => Err(ConfigError::ExpectedInt),
                                    Some((active_size, passive_size)) => if lines.len() < 5 {
                                        Err(ConfigError::MissingLine)
                                    } else {
                                        match parse_u8_spec(trim(lines[4])) {
                                            None => Err(ConfigError::ExpectedInt),
                                            Some(period) => if lines.len() < 6 {
                                                Err(ConfigError::MissingLine)
                                            } else {
                                                match parse_int_pair_spec(lines[5]) {
                                                    None => Err(ConfigError::ExpectedInt),
                                                    Some((sa, sp)) => Ok(
                                                        ConfigView {
                                                            local_addr,
                                                            contact_nodes,
                                                            active_random_walk_length: arwl,
                                                            passive_random_walk_length: prwl,
                                                            active_view_size: active_size,
                                                            passive_view_size: passive_size,
                                                            shuffle_period_seconds: period,
                                                            shuffle_active_view_count: sa,
                                                            shuffle_passive_view_count: sp,
                                                            shuffle_walk_length: arwl,
                                                        },
                                                    ),
                                                }
                                            },
                                        }
                                    },
                                }
                            },
                        }
                    },
                }
            },
        }
    }
}

proof fn lemma_addr_list_none_stays(pieces: Seq<Seq<u8>>, i: int)
    requires
        0 <= i <= pieces.len(),
        parse_addr_list_spec(pieces.take(i)) is None,
    ensures
        parse_addr_list_spec(pieces) is None,
    decreases pieces.len() - i,
{
    if i < pieces.len() {
        assert(pieces.take(i + 1).drop_last() =~= pieces.take(i));
        lemma_addr_list_none_stays(pieces, i + 1);
    } else {
        assert(pieces.take(i) =~= pieces);
    }
}

/// Reads the addresses of a comma separated list, each piece trimmed.
fn parse_addr_list(pieces: &Vec<Vec<u8>>) -> (r: Option<Vec<SocketAddr>>)
    ensures
        match parse_addr_list_spec(pieces@.map_values(|v: Vec<u8>| v@)) {
            Some(l) => r matches Some(v) && v@ == l,
            None => r is None,
        },
{
    let ghost ps = pieces@.map_values(|v: Vec<u8>| v@);
    let mut out: Vec<SocketAddr> = Vec::new();
    let mut i: usize = 0;
    assert(ps.take(0) =~= Seq::<Seq<u8>>::empty());
    while i < pieces.len()
        invariant
            i <= pieces@.len(),
            ps == pieces@.map_values(|v: Vec<u8>| v@),
            parse_addr_list_spec(ps.take(i as int)) == Some(out@),
        decreases pieces@.len() - i,
    {
        assert(ps.take(i + 1).drop_last() =~= ps.take(i as int));
        assert(ps.take(i + 1).last() == pieces@[i as int]@);
        let t = trim_bytes(&pieces[i]);
        match SocketAddr::parse(&t) {
            Some(a) => {
                out.push(a);
            },
            None => {
                proof {
                    lemma_addr_list_none_stays(ps, i + 1);
                }
                return None;
            },
        }
        i = i + 1;
    }
    assert(ps.take(i as int) =~= ps);
    Some(out)
}

/// A line `x,y` of two bytes in decimal (see `parse_int_pair_spec`).
pub fn read_int_pair(line: &Vec<u8>) -> (r: Option<(u8, u8)>)
    ensures
        r == parse_int_pair_spec(line@),
{
    let t = trim_bytes(line);
    let v = split_bytes(&t, 44);
    proof {
        assert(v@.map_values(|x: Vec<u8>| x@).len() == v@.len());
    }
    if v.len() < 2 {
        return None;
    }
    proof {
        assert(v@.map_values(|x: Vec<u8>| x@)[0] == v@[0]@);
        assert(v@.map_values(|x: Vec<u8>| x@)[1] == v@[1]@);
    }
    match (parse_u8(&v[0]), parse_u8(&v[1])) {
        (Some(a), Some(b)) => Some((a, b)),
        _ => None,
    }
}

impl Config {
    /// Reads a configuration file's text (see `parse_config_spec`).
    pub fn parse(text: &Vec<u8>) -> (r: core::result::Result<Config, ConfigError>)
        ensures
            match parse_config_spec(text@) {
                Ok(c) => r matches Ok(config) && config@ == c,
                Err(e) => r == Err::<Config, ConfigError>(e),
            },
    {
        let mut lines = split_bytes(text, 10);
        let ghost pieces = lines@.map_values(|v: Vec<u8>| v@);
        if lines[lines.len() - 1].len() == 0 {
            lines.pop();
        }
        let ghost ls = lines@.map_values(|v: Vec<u8>| v@);
        assert(ls =~= file_lines(text@)) by {
            if pieces.last().len() == 0 {
                assert(ls =~= pieces.drop_last());
            } else {
                assert(ls =~= pieces);
            }
        }
        assert(ls.len() == lines@.len());
        assert(forall|k: int| 0 <= k < lines@.len() ==> ls[k] == #[trigger] lines@[k]@);
        if lines.len() < 1 {
            return Err(ConfigError::MissingLine);
        }
        let local_addr = match SocketAddr::parse(&trim_bytes(&lines[0])) {
            Some(a) => a,
            None => {
                return Err(ConfigError::MalformedAddress);
            },
        };
        if lines.len() < 2 {
            return Err(ConfigError::MissingLine);
        }
        let contact_nodes = match parse_addr_list(&split_bytes(&lines[1], 44)) {
            Some(v) => v,
            None => {
                return Err(ConfigError::MalformedAddress);
            },
        };
        if lines.len() < 3 {
            return Err(ConfigError::MissingLine);
        }
        let (arwl, prwl) = match read_int_pair(&lines[2]) {
            Some(p) => p,
            None => {
                return Err(ConfigError::ExpectedInt);
            },
        };
        if lines.len() < 4 {
            return Err(ConfigError::MissingLine);
        }
        let (active_size, passive_size) = match read_int_pair(&lines[3]) {
            Some(p) => p,
            None => {
                return Err(ConfigError::ExpectedInt);
            },
        };
        if lines.len() < 5 {
            return Err(ConfigError::MissingLine);
        }
        let shuffle_period: u8 = match parse_u8(&trim_bytes(&lines[4])) {
            Some(p) => p,
            None => {
                return Err(ConfigError::ExpectedInt);
            },
        };
        if lines.len() < 6 {
            return Err(ConfigError::MissingLine);
        }
        let (shuffle_active_cnt, shuffle_passive_cnt) = match read_int_pair(&lines[5]) {
            Some(p) => p,
            None => {
                return Err(ConfigError::ExpectedInt);
            },
        };
        Ok(
            Config {
                local_addr,
                contact_nodes,
                active_random_walk_length: arwl,
                passive_random_walk_length: prwl,
                active_view_size: active_size,
                passive_view_size: passive_size,
                shuffle_period_seconds: shuffle_period,
                shuffle_active_view_count: shuffle_active_cnt,
                shuffle_passive_view_count: shuffle_passive_cnt,
                shuffle_walk_length: arwl,
            },
        )
    }
}

} // verus!
