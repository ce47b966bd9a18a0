//! Settings as key/value pairs, and the options of each dataset built from
//! them.
use crate::text::{chars_eq, chars_of, push_all, string_of};
use vstd::prelude::*;

pub mod cdi;
pub mod downloader;
pub mod fund;
pub mod ibovespa;
pub mod informe;
pub mod portfolio;

verus! {

/// Why options could not be built.
#[derive(Clone, Debug, PartialEq, Eq)]
pub enum ConfigError {
    /// No setting has this key.
    NotFound(String),
}

/// Settings: values by dotted key, such as `cvm.fundo.cadastro.url`.
#[derive(Clone, Debug)]
pub struct Settings {
    pub entries: Vec<(String, String)>,
}

/// The value of the first setting with this key.
pub open spec fn setting(entries: Seq<(String, String)>, key: Seq<char>) -> Option<Seq<char>>
    decreases entries.len(),
{
    if entries.len() == 0 {
        None
    } else if entries[0].0@ == key {
        Some(entries[0].1@)
    } else {
        setting(entries.drop_first(), key)
    }
}

/// The key of a field under a root.
pub open spec fn key_of(root: Seq<char>, field: Seq<char>) -> Seq<char> {
    root + "."@ + field
}

impl Settings {
    /// The value of the first setting with this key.
    pub fn get(&self, key: &str) -> (r: Option<String>)
        ensures
            match r {
                Some(v) => setting(self.entries@, key@) == Some(v@),
                None => setting(self.entries@, key@) is None,
            },
    {
        let k = chars_of(key);
        let mut i: usize = 0;
        proof {
            assert(self.entries@.subrange(0, self.entries@.len() as int) =~= self.entries@);
        }
        while i < self.entries.len()
            invariant
                0 <= i <= self.entries@.len(),
                k@ == key@,
                setting(self.entries@, key@) == setting(
                    self.entries@.subrange(i as int, self.entries@.len() as int),
                    key@,
                ),
            decreases self.entries@.len() - i,
        {
            proof {
                let rest = self.entries@.subrange(i as int, self.entries@.len() as int);
                assert(rest.drop_first() =~= self.entries@.subrange(i + 1, self.entries@.len() as int));
                assert(rest[0] == self.entries@[i as int]);
            }
            if chars_eq(&chars_of(self.entries[i].0.as_str()), &k) {
                return Some(self.entries[i].1.clone());
            }
            i += 1;
        }
        None
    }

    /// The value of field `field` under `root`; missing is an error naming the key.
    pub fn field(&self, root: &str, field: &str) -> (r: Result<String, ConfigError>)
        ensures
            match r {
                Ok(v) => setting(self.entries@, key_of(root@, field@)) == Some(v@),
                Err(ConfigError::NotFound(k)) => k@ == key_of(root@, field@) && setting(
                    self.entries@,
                    key_of(root@, field@),
                ) is None,
            },
    {
        let mut k = chars_of(root);
        push_all(&mut k, &chars_of("."));
        push_all(&mut k, &chars_of(field));
        let key = string_of(&k);
        proof {
            assert(key@ =~= key_of(root@, field@));
        }
        match self.get(key.as_str()) {
            Some(v) => Ok(v),
            None => Err(ConfigError::NotFound(key)),
        }
    }
}

} // verus!
