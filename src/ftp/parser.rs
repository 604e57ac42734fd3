use vstd::prelude::*;

use crate::bytes::copy_range;
use crate::http::error::HttpError;
use crate::http::http::{find_byte, index_of, lemma_index_of_bounds};
use crate::strings::{bytes_of, clone_opt, utf8_string};
use vstd::string::StringSliceAdditionalSpecFns;
use vstd::utf8::{decode_utf8, valid_utf8};

verus! {

/// The position of the last `c` in `v` before `to`, or `-1` when none.
pub open spec fn last_index_of(v: Seq<u8>, c: u8, to: int) -> int
    decreases to,
{
    if to <= 0 || to > v.len() {
        -1
    } else if v[to - 1] == c {
        to - 1
    } else {
        last_index_of(v, c, to - 1)
    }
}

/// The user name and password of `user:password`: the text holds exactly
/// one `:`.
pub open spec fn credentials_of(b: Seq<u8>) -> Option<(Seq<u8>, Seq<u8>)> {
    let p = index_of(b, 58, 0);
    if p < b.len() && index_of(b, 58, p + 1) == b.len() {
        Some((b.subrange(0, p), b.subrange(p + 1, b.len() as int)))
    } else {
        None
    }
}

/// The parts of `host/dir/.../file`: the host, then the directories joined
/// by `/` and the file name; the whole text is the host when it has no `/`.
pub open spec fn address_of(b: Seq<u8>) -> (Seq<u8>, Option<(Seq<u8>, Seq<u8>)>) {
    let p = index_of(b, 47, 0);
    let q = last_index_of(b, 47, b.len() as int);
    if p >= b.len() {
        (b, None)
    } else {
        (
            b.subrange(0, p),
            Some(
                (
                    if q > p {
                        b.subrange(p + 1, q)
                    } else {
                        Seq::empty()
                    },
                    b.subrange(q + 1, b.len() as int),
                ),
            ),
        )
    }
}

proof fn lemma_last_index_bounds(v: Seq<u8>, c: u8, to: int)
    requires
        0 <= to <= v.len(),
    ensures
        -1 <= last_index_of(v, c, to) < to,
        last_index_of(v, c, to) >= 0 ==> v[last_index_of(v, c, to)] == c,
        forall|i: int| last_index_of(v, c, to) < i < to ==> v[i] != c,
    decreases to,
{
    if to > 0 && v[to - 1] != c {
        lemma_last_index_bounds(v, c, to - 1);
    }
}

/// Finds the last `c` in `v`.
fn find_last(v: &Vec<u8>, c: u8) -> (r: Option<usize>)
    ensures
        match r {
            Some(i) => i == last_index_of(v@, c, v@.len() as int),
            None => last_index_of(v@, c, v@.len() as int) == -1,
        },
{
    let mut to = v.len();
    while to > 0
        invariant
            to <= v@.len(),
            last_index_of(v@, c, v@.len() as int) == last_index_of(v@, c, to as int),
        decreases to,
    {
        if v[to - 1] == c {
            return Some(to - 1);
        }
        to -= 1;
    }
    None
}

/// Splits `user:password`; nothing when the text does not hold exactly one
/// `:`.
pub fn split_credentials(user: &str) -> (r: Option<(String, String)>)
    ensures
        match credentials_of(user.spec_bytes()) {
            Some(c) => if valid_utf8(c.0) && valid_utf8(c.1) {
                r matches Some(s) && s.0@ == decode_utf8(c.0) && s.1@ == decode_utf8(c.1)
            } else {
                r is None
            },
            None => r is None,
        },
{
    let b = bytes_of(user);
    let p = find_byte(&b, 58, 0);
    proof {
        lemma_index_of_bounds(b@, 58, 0);
    }
    if p >= b.len() {
        return None;
    }
    let second = find_byte(&b, 58, p + 1);
    if second != b.len() {
        return None;
    }
    let name = copy_range(&b, 0, p);
    let password = copy_range(&b, p + 1, b.len());
    match (utf8_string(name), utf8_string(password)) {
        (Some(n), Some(w)) => Some((n, w)),
        _ => None,
    }
}

/// Splits `host/dir/.../file` into the host and, when there is a `/`, the
/// directory path and the file name.
pub fn split_address(address: &str) -> (r: Option<(String, Option<(String, String)>)>)
    ensures
        ({
            let (host, target) = address_of(address.spec_bytes());
            match target {
                None => if valid_utf8(host) {
                    r matches Some(s) && s.0@ == decode_utf8(host) && s.1 is None
                } else {
                    r is None
                },
                Some(t) => if valid_utf8(host) && valid_utf8(t.0) && valid_utf8(t.1) {
                    r matches Some(s) && s.0@ == decode_utf8(host) && (s.1 matches Some(u) && u.0@
                        == decode_utf8(t.0) && u.1@ == decode_utf8(t.1))
                } else {
                    r is None
                },
            }
        }),
{
    let b = bytes_of(address);
    let p = find_byte(&b, 47, 0);
    proof {
        lemma_index_of_bounds(b@, 47, 0);
        lemma_last_index_bounds(b@, 47, b@.len() as int);
    }
    if p >= b.len() {
        let whole = copy_range(&b, 0, b.len());
        assert(whole@ =~= b@);
        return match utf8_string(whole) {
            Some(h) => Some((h, None)),
            None => None,
        };
    }
    let q = match find_last(&b, 47) {
        Some(q) => q,
        None => {
            assert(b@[p as int] == 47u8);
            return None;
        },
    };
    assert(p <= q) by {
        if q < p {
            assert(b@[p as int] != 47u8);
        }
    }
    let host = copy_range(&b, 0, p);
    let dir = if q > p {
        copy_range(&b, p + 1, q)
    } else {
        Vec::new()
    };
    let file = copy_range(&b, q + 1, b.len());
    match (utf8_string(host), utf8_string(dir), utf8_string(file)) {
        (Some(h), Some(d), Some(f)) => Some((h, Some((d, f)))),
        _ => None,
    }
}

/// The arguments of an FTP fetch: credentials, server address, where to
/// save, and the remote directory and file name.
pub struct CommandArgument {
    pub username: Option<String>,
    pub password: Option<String>,
    pub address: Option<String>,
    pub out_path: Option<String>,
    pub target: Option<(String, String)>,
}

impl CommandArgument {
    pub fn new() -> (r: CommandArgument)
        ensures
            r.username is None,
            r.password is None,
            r.address is None,
            r.out_path is None,
            r.target is None,
    {
        CommandArgument {
            username: None,
            password: None,
            address: None,
            out_path: None,
            target: None,
        }
    }

    /// Takes the values read from the command line: the user name and
    /// password, the server address with the remote directory and file name
    /// when the address named a path, and the output directory. The user
    /// name, the password and the address are required.
    pub fn apply(
        &mut self,
        credentials: Option<(String, String)>,
        address: Option<String>,
        target: Option<(String, String)>,
        output: Option<String>,
    ) -> (r: Result<(), HttpError>)
        ensures
            r is Ok <==> (credentials is Some && address is Some),
            r is Err ==> *final(self) == *old(self),
            r matches Err(e) ==> e == HttpError::UserInput,
            r is Ok ==> {
                &&& credentials matches Some(c) && final(self).username == Some(c.0)
                    && final(self).password == Some(c.1)
                &&& final(self).address == address
                &&& final(self).target == target
                &&& final(self).out_path == output
            },
    {
        match (credentials, address) {
            (Some(c), Some(a)) => {
                self.username = Some(c.0);
                self.password = Some(c.1);
                self.address = Some(a);
                self.target = target;
                self.out_path = output;
                Ok(())
            },
            _ => Err(HttpError::UserInput),
        }
    }

    pub fn get_output(&self) -> (r: Option<String>)
        ensures
            r == self.out_path,
    {
        clone_opt(&self.out_path)
    }

    pub fn get_username(&self) -> (r: Option<String>)
        ensures
            r == self.username,
    {
        clone_opt(&self.username)
    }

    pub fn get_password(&self) -> (r: Option<String>)
        ensures
            r == self.password,
    {
        clone_opt(&self.password)
    }

    pub fn get_address(&self) -> (r: Option<String>)
        ensures
            r == self.address,
    {
        clone_opt(&self.address)
    }

    /// The remote directory and the file name to fetch from it.
    pub fn get_target_path(&self) -> (r: Option<(String, String)>)
        ensures
            r == self.target,
    {
        match &self.target {
            Some(t) => Some((t.0.clone(), t.1.clone())),
            None => None,
        }
    }
}

} // verus!
