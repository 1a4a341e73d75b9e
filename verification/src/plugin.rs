//! What a compiler plugin is told about the compilation it runs in, and the
//! buffer allocation its host calls.

use vstd::prelude::*;

verus! {

/// Character-wise equality of two strings.
pub fn str_eq(a: &str, b: &str) -> (r: bool)
    ensures
        r == (a@ == b@),
{
    let n = a.unicode_len();
    let m = b.unicode_len();
    if n != m {
        return false;
    }
    let mut i: usize = 0;
    while i < n
        invariant
            n == a@.len(),
            m == b@.len(),
            n == m,
            i <= n,
            forall|j: int| 0 <= j < i ==> a@[j] == b@[j],
        decreases n - i,
    {
        if a.get_char(i) != b.get_char(i) {
            return false;
        }
        i = i + 1;
    }
    assert(a@ =~= b@);
    true
}

/// The value stored under `key`: that of the first entry with this key.
pub open spec fn option_value(opts: Seq<(String, String)>, key: Seq<char>) -> Option<Seq<char>>
    decreases opts.len(),
{
    if opts.len() == 0 {
        None
    } else if opts[0].0@ == key {
        Some(opts[0].1@)
    } else {
        option_value(opts.subrange(1, opts.len() as int), key)
    }
}

/// How `str::parse::<bool>` reads a string.
pub open spec fn parse_bool(s: Seq<char>) -> Option<bool> {
    if s == "true"@ {
        Some(true)
    } else if s == "false"@ {
        Some(false)
    } else {
        None
    }
}

/// The compilation a plugin runs in: versions, target, the file being
/// compiled and the options given to the plugin, by key.
pub struct PluginContext {
    pub protocol_version: String,
    pub compiler_version: String,
    pub target_arch: String,
    pub target_os: String,
    pub file_path: String,
    pub options: Vec<(String, String)>,
}

impl PluginContext {
    /// Keys of the options are distinct.
    pub open spec fn wf(&self) -> bool {
        forall|i: int, j: int| 0 <= i < j < self.options@.len() ==> (#[trigger] self.options@[i]).0@ != (#[trigger] self.options@[j]).0@
    }

    pub open spec fn option_spec(&self, key: Seq<char>) -> Option<Seq<char>> {
        option_value(self.options@, key)
    }

    fn find_option(&self, key: &str) -> (r: Option<usize>)
        ensures
            match r {
                Some(i) => i < self.options@.len() && self.option_spec(key@) == Some(self.options@[i as int].1@),
                None => self.option_spec(key@) is None,
            },
    {
        let mut i: usize = 0;
        assert(self.options@.subrange(0, self.options@.len() as int) =~= self.options@);
        while i < self.options.len()
            invariant
                i <= self.options@.len(),
                option_value(self.options@, key@) == option_value(self.options@.subrange(i as int, self.options@.len() as int), key@),
            decreases self.options@.len() - i,
        {
            let ghost rest = self.options@.subrange(i as int, self.options@.len() as int);
            assert(rest[0] == self.options@[i as int]);
            if str_eq(self.options[i].0.as_str(), key) {
                return Some(i);
            }
            assert(rest.subrange(1, rest.len() as int) =~= self.options@.subrange(i + 1, self.options@.len() as int));
            i = i + 1;
        }
        None
    }

    /// The option stored under `key`, if any.
    pub fn get_option_string(&self, key: &str) -> (r: Option<&str>)
        ensures
            match r {
                Some(v) => self.option_spec(key@) == Some(v@),
                None => self.option_spec(key@) is None,
            },
    {
        match self.find_option(key) {
            Some(i) => Some(self.options[i].1.as_str()),
            None => None,
        }
    }

    /// The option stored under `key` read as a boolean: `Some` only where it
    /// is there and reads `true` or `false`.
    pub fn get_option_bool(&self, key: &str) -> (r: Option<bool>)
        ensures
            r == match self.option_spec(key@) {
                Some(v) => parse_bool(v),
                None => None,
            },
    {
        match self.get_option_string(key) {
            Some(v) => {
                proof {
                    reveal_strlit("true");
                    reveal_strlit("false");
                }
                if str_eq(v, "true") {
                    Some(true)
                } else if str_eq(v, "false") {
                    Some(false)
                } else {
                    None
                }
            },
            None => None,
        }
    }

    /// The target operating system is Linux.
    pub fn is_target_linux(&self) -> (r: bool)
        ensures
            r == (self.target_os@ == "linux"@),
    {
        str_eq(self.target_os.as_str(), "linux")
    }

    /// The target architecture is `arch`.
    pub fn is_target_arch(&self, arch: &str) -> (r: bool)
        ensures
            r == (self.target_arch@ == arch@),
    {
        str_eq(self.target_arch.as_str(), arch)
    }
}

/// A buffer the host can write `len` bytes into: empty, with room reserved
/// for `len` bytes.
pub fn alloc_buffer(len: u32) -> (buf: Vec<u8>)
    ensures
        buf@.len() == 0,
{
    Vec::with_capacity(len as usize)
}

} // verus!
