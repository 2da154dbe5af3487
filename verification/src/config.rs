//! The chain configuration: `user@host` tokens and the shared description of
//! the chain (host list, position index, destination command).

use crate::strutil::{find_char, lemma_find_char, lemma_find_char_unique, find_char_in_str};
use crate::{spec_role, role_of, Role};
use vstd::prelude::*;
use vstd::string::*;

verus! {

/// Configuration-related failures.
#[derive(Debug, PartialEq, Eq)]
pub enum Error {
    /// The stream ended before the declared number of body lines was read,
    /// or reading failed.
    IOError,
    /// The document body is not a valid configuration document.
    TOMLError,
    /// The first line of a handoff stream is not a well-formed
    /// `TOML:<count>` marker; carries that first line.
    InvalidFormatMarker(String),
    /// A host token has no explicit username and the local user could not
    /// be determined.
    UnknownUser,
}

/// Mathematical model of a [`HostSpec`].
pub struct HostSpecView {
    pub host_address: Seq<char>,
    pub username: Seq<char>,
}

/// One `user@host` address in the chain. The username is never empty: a
/// token without an explicit `user@` prefix gets the local user's name.
#[derive(Debug, PartialEq, Eq)]
pub struct HostSpec {
    pub host_address: String,
    pub username: String,
}

impl View for HostSpec {
    type V = HostSpecView;

    open spec fn view(&self) -> HostSpecView {
        HostSpecView { host_address: self.host_address@, username: self.username@ }
    }
}

/// How a token splits into username and host address: at the first `@` when
/// one follows a non-empty username part, and with the fallback username
/// otherwise.
pub open spec fn spec_parse_token(t: Seq<char>, fallback: Seq<char>) -> HostSpecView {
    match find_char(t, '@') {
        Some(i) => if i == 0 {
            HostSpecView { username: fallback, host_address: t.skip(1) }
        } else {
            HostSpecView { username: t.take(i), host_address: t.skip(i + 1) }
        },
        None => HostSpecView { username: fallback, host_address: t },
    }
}

impl HostSpec {
    /// The invariant every constructed host carries.
    pub open spec fn wf(self) -> bool {
        self@.username.len() > 0
    }

    /// Splits `token` at the first `@`; a token without one, or with an
    /// empty username part, gets `local_user` as its username.
    pub fn parse_with_user(token: &str, local_user: &str) -> (h: HostSpec)
        requires
            local_user@.len() > 0,
        ensures
            h@ == spec_parse_token(token@, local_user@),
            h.wf(),
    {
        match find_char_in_str(token, '@') {
            Some(i) => {
                let n = token.unicode_len();
                proof {
                    lemma_find_char(token@, '@');
                }
                if i == 0 {
                    HostSpec {
                        host_address: String::from_str(token.substring_char(1, n)),
                        username: String::from_str(local_user),
                    }
                } else {
                    HostSpec {
                        host_address: String::from_str(token.substring_char(i + 1, n)),
                        username: String::from_str(token.substring_char(0, i)),
                    }
                }
            },
            None => HostSpec {
                host_address: String::from_str(token),
                username: String::from_str(local_user),
            },
        }
    }

    /// Parses a `user@host` token. When the token carries no usable
    /// username, the local operating-system user's name is taken; if that
    /// cannot be determined, the token is rejected.
    pub fn parse(token: &str) -> (r: Result<HostSpec, Error>)
        ensures
            match r {
                Ok(h) => h.wf() && exists|u: Seq<char>|
                    u.len() > 0 && h@ == spec_parse_token(token@, u),
                Err(e) => e == Error::UnknownUser,
            },
            (find_char(token@, '@') matches Some(i) && i > 0) ==> (match r {
                Ok(h) => h@ == spec_parse_token(token@, Seq::<char>::empty()),
                Err(_) => false,
            }),
    {
        match find_char_in_str(token, '@') {
            Some(i) if i > 0 => {
                let n = token.unicode_len();
                proof {
                    lemma_find_char(token@, '@');
                }
                let h = HostSpec {
                    host_address: String::from_str(token.substring_char(i + 1, n)),
                    username: String::from_str(token.substring_char(0, i)),
                };
                proof {
                    let u = h@.username;
                    assert(u.len() > 0 && h@ == spec_parse_token(token@, u));
                }
                Ok(h)
            },
            _ => {
                match crate::osuser::current_username() {
                    Some(u) => {
                        if u.as_str().unicode_len() == 0 {
                            Err(Error::UnknownUser)
                        } else {
                            let h = HostSpec::parse_with_user(token, u.as_str());
                            proof {
                                assert(u@.len() > 0 && h@ == spec_parse_token(token@, u@));
                            }
                            Ok(h)
                        }
                    },
                    None => Err(Error::UnknownUser),
                }
            },
        }
    }

    /// Formats the host back to its explicit `user@host` token.
    pub fn to_token(&self) -> (t: String)
        ensures
            t@ == self@.username + seq!['@'] + self@.host_address,
    {
        proof {
            reveal_strlit("@");
        }
        let mut t = self.username.clone();
        t.append("@");
        t.append(self.host_address.as_str());
        proof {
            assert(t@ =~= self@.username + seq!['@'] + self@.host_address);
        }
        t
    }

    /// A value-preserving copy.
    pub fn duplicate(&self) -> (h: HostSpec)
        ensures
            h@ == self@,
    {
        HostSpec {
            host_address: self.host_address.clone(),
            username: self.username.clone(),
        }
    }
}

/// Mathematical model of a [`DaisyConfig`].
pub struct DaisyConfigView {
    pub position_index: nat,
    pub destination_command: Seq<char>,
    pub destination_command_is_persistent: bool,
    pub hosts: Seq<HostSpecView>,
}

/// The shared, ordered description of the chain: the host list, this
/// process's position in it, and the command run at the destination.
#[derive(Debug, PartialEq, Eq)]
pub struct DaisyConfig {
    /// Index of this link within the chain. 0 is the sender.
    pub position_index: usize,
    /// The command run on the destination machine to receive messages.
    pub destination_command: String,
    /// If `true`, the destination command is started once and stays alive;
    /// if `false`, it is run anew for every message.
    pub destination_command_is_persistent: bool,
    /// The hosts that make up the chain, in order.
    pub hosts: Vec<HostSpec>,
}

impl View for DaisyConfig {
    type V = DaisyConfigView;

    open spec fn view(&self) -> DaisyConfigView {
        DaisyConfigView {
            position_index: self.position_index as nat,
            destination_command: self.destination_command@,
            destination_command_is_persistent: self.destination_command_is_persistent,
            hosts: self.hosts@.map_values(|h: HostSpec| h@),
        }
    }
}

impl DaisyConfig {
    /// The invariant every loaded configuration carries: the host list is
    /// non-empty and every host has a username.
    pub open spec fn wf(self) -> bool {
        &&& self@.hosts.len() > 0
        &&& forall|i: int| 0 <= i < self.hosts@.len() ==> (#[trigger] self.hosts@[i]).wf()
    }

    /// The role this process plays: the deliverer exactly when the position
    /// index has passed the end of the host list, a forwarder otherwise.
    pub fn current_role(&self) -> (r: Role)
        ensures
            r == spec_role(self@.position_index, self@.hosts.len()),
    {
        role_of(self.position_index, self.hosts.len())
    }

    /// The configuration handed to the next hop: the same chain with the
    /// position index advanced by exactly one. The receiver is unchanged.
    pub fn next_hop_config(&self) -> (c: DaisyConfig)
        requires
            self.position_index < usize::MAX,
        ensures
            c@.position_index == self@.position_index + 1,
            c@.destination_command == self@.destination_command,
            c@.destination_command_is_persistent == self@.destination_command_is_persistent,
            c@.hosts == self@.hosts,
            self.wf() ==> c.wf(),
    {
        let mut hosts: Vec<HostSpec> = Vec::new();
        let mut i: usize = 0;
        let n = self.hosts.len();
        while i < n
            invariant
                0 <= i <= n,
                n == self.hosts@.len(),
                hosts@.len() == i as int,
                forall|j: int| 0 <= j < i ==> #[trigger] hosts@[j]@ == self.hosts@[j]@,
            decreases n - i,
        {
            hosts.push(self.hosts[i].duplicate());
            i = i + 1;
        }
        let c = DaisyConfig {
            position_index: self.position_index + 1,
            destination_command: self.destination_command.clone(),
            destination_command_is_persistent: self.destination_command_is_persistent,
            hosts,
        };
        proof {
            assert(c@.hosts =~= self@.hosts);
        }
        c
    }
}

/// Splitting a token with an explicit username and formatting the parts back
/// reproduces the token exactly.
pub proof fn lemma_parse_to_token_roundtrip(t: Seq<char>, fallback: Seq<char>)
    requires
        (find_char(t, '@') matches Some(i) && i > 0),
    ensures
        ({
            let h = spec_parse_token(t, fallback);
            h.username + seq!['@'] + h.host_address == t
        }),
{
    let i = find_char(t, '@').unwrap();
    lemma_find_char(t, '@');
    let h = spec_parse_token(t, fallback);
    assert(h.username + seq!['@'] + h.host_address =~= t);
}

/// Formatting a host and splitting the token again gives the host back,
/// provided the username is non-empty and itself contains no `@`.
pub proof fn lemma_to_token_parse_roundtrip(u: Seq<char>, a: Seq<char>, fallback: Seq<char>)
    requires
        u.len() > 0,
        forall|j: int| 0 <= j < u.len() ==> u[j] != '@',
    ensures
        (spec_parse_token(u + seq!['@'] + a, fallback) == HostSpecView {
            username: u,
            host_address: a,
        }),
{
    let t = u + seq!['@'] + a;
    assert(t[u.len() as int] == '@');
    assert forall|j: int| 0 <= j < u.len() implies t[j] != '@' by {
        assert(t[j] == u[j]);
    }
    lemma_find_char_unique(t, '@', u.len() as int);
    assert(t.take(u.len() as int) =~= u);
    assert(t.skip(u.len() as int + 1) =~= a);
}

} // verus!
