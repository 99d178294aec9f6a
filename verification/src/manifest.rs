use vstd::prelude::*;

verus! {

/// One file carried by an item: where it lives inside the registry
/// repository and where the manifest wants it placed in the project.
#[derive(Debug, Clone)]
pub struct FileMapping {
    pub source: String,
    pub target: String,
}

/// One installable unit of a registry.
#[derive(Debug, Clone)]
pub struct Item {
    pub item_type: String,
    pub description: String,
    /// External packages the project must have installed.
    pub dependencies: Vec<String>,
    /// Names of other items of the same manifest, installed first.
    pub internal_dependencies: Vec<String>,
    pub files: Vec<FileMapping>,
}

/// A registry's description of its installable items, keyed by item name.
#[derive(Debug, Clone)]
pub struct Manifest {
    pub name: String,
    pub schema_version: String,
    pub items: Vec<(String, Item)>,
}

/// User-authored aliases: a short name standing for a filesystem path.
#[derive(Debug, Clone)]
pub struct UserConfig {
    pub aliases: Vec<(String, String)>,
}

impl Manifest {
    /// Item names are unique: the items list is a map.
    pub open spec fn wf(self) -> bool {
        forall|i: int, j: int|
            0 <= i < j < self.items@.len() ==> self.items@[i].0@ != self.items@[j].0@
    }

    /// The names of the manifest's items, in order.
    pub open spec fn names(self) -> Seq<Seq<char>> {
        self.items@.map_values(|p: (String, Item)| p.0@)
    }

    pub open spec fn has_item(self, name: Seq<char>) -> bool {
        exists|i: int| 0 <= i < self.items@.len() && self.items@[i].0@ == name
    }

    pub open spec fn item_index(self, name: Seq<char>) -> int {
        choose|i: int| 0 <= i < self.items@.len() && self.items@[i].0@ == name
    }

    /// The item registered under `name`.
    pub open spec fn spec_item(self, name: Seq<char>) -> Item {
        self.items@[self.item_index(name)].1
    }

    /// Looks an item up by its name.
    pub fn find_item<'a>(&'a self, name: &String) -> (r: Option<&'a Item>)
        requires
            self.wf(),
        ensures
            r is Some <==> self.has_item(name@),
            r is Some ==> *r.unwrap() == self.spec_item(name@),
    {
        let mut i: usize = 0;
        while i < self.items.len()
            invariant
                self.wf(),
                i <= self.items@.len(),
                forall|k: int| 0 <= k < i ==> self.items@[k].0@ != name@,
            decreases self.items@.len() - i,
        {
            if self.items[i].0 == *name {
                proof {
                    assert(self.has_item(name@));
                    let j = self.item_index(name@);
                    assert(0 <= j < self.items@.len() && self.items@[j].0@ == name@);
                    assert(j == i);
                }
                return Some(&self.items[i].1);
            }
            i += 1;
        }
        None
    }
}

impl UserConfig {
    /// Alias names are unique: the aliases list is a map.
    pub open spec fn wf(self) -> bool {
        forall|i: int, j: int|
            0 <= i < j < self.aliases@.len() ==> self.aliases@[i].0@ != self.aliases@[j].0@
    }

    pub open spec fn has_alias(self, name: Seq<char>) -> bool {
        exists|i: int| 0 <= i < self.aliases@.len() && self.aliases@[i].0@ == name
    }

    pub open spec fn alias_index(self, name: Seq<char>) -> int {
        choose|i: int| 0 <= i < self.aliases@.len() && self.aliases@[i].0@ == name
    }

    /// The path the alias stands for.
    pub open spec fn alias_path(self, name: Seq<char>) -> Seq<char> {
        self.aliases@[self.alias_index(name)].1@
    }
}

pub open spec fn has_slash(t: Seq<char>) -> bool {
    exists|i: int| 0 <= i < t.len() && t[i] == '/'
}

/// The position of the first path separator of `t`.
pub open spec fn first_slash(t: Seq<char>) -> int {
    choose|i: int|
        0 <= i < t.len() && t[i] == '/' && (forall|j: int| 0 <= j < i ==> t[j] != '/')
}

/// Character-for-character string comparison.
pub fn str_eq(a: &str, b: &str) -> (r: bool)
    ensures
        r == (a@ == b@),
{
    let na = a.unicode_len();
    let nb = b.unicode_len();
    if na != nb {
        return false;
    }
    let mut i: usize = 0;
    while i < na
        invariant
            na == a@.len(),
            nb == b@.len(),
            na == nb,
            i <= na,
            forall|j: int| 0 <= j < i ==> a@[j] == b@[j],
        decreases na - i,
    {
        if a.get_char(i) != b.get_char(i) {
            return false;
        }
        i += 1;
    }
    proof {
        assert(a@ =~= b@);
    }
    true
}

/// Finds the first path separator of `s`.
fn find_slash(s: &str) -> (r: Option<usize>)
    ensures
        match r {
            Some(i) => has_slash(s@) && i == first_slash(s@) && i < s@.len() && s@[i as int]
                == '/',
            None => !has_slash(s@),
        },
{
    let n = s.unicode_len();
    let mut i: usize = 0;
    while i < n
        invariant
            n == s@.len(),
            i <= n,
            forall|j: int| 0 <= j < i ==> s@[j] != '/',
        decreases n - i,
    {
        if s.get_char(i) == '/' {
            proof {
                assert(has_slash(s@));
                let k = first_slash(s@);
                assert(0 <= k < s@.len() && s@[k] == '/' && (forall|j: int|
                    0 <= j < k ==> s@[j] != '/'));
                assert(k == i);
            }
            return Some(i);
        }
        i += 1;
    }
    None
}

/// Where a file mapping's target resolves to. Past the first path separator
/// the leading segment may name a configured alias; otherwise, and when the
/// target has no separator at all, the file keeps its source location.
pub open spec fn resolved_target(mapping: FileMapping, config: UserConfig) -> Seq<char> {
    let t = mapping.target@;
    if !has_slash(t) {
        mapping.source@
    } else {
        let p = first_slash(t);
        let prefix = t.subrange(0, p);
        let rest = t.subrange(p + 1, t.len() as int);
        if config.has_alias(prefix) {
            config.alias_path(prefix) + seq!['/'] + rest
        } else {
            mapping.source@
        }
    }
}

/// Maps a file mapping's declared target through the configured aliases;
/// a target that names no alias falls back to the mapping's source path.
pub fn resolve_target_path(mapping: &FileMapping, config: &UserConfig) -> (r: String)
    requires
        config.wf(),
    ensures
        r@ == resolved_target(*mapping, *config),
        !has_slash(mapping.target@) ==> r@ == mapping.source@,
        has_slash(mapping.target@) && !config.has_alias(
            mapping.target@.subrange(0, first_slash(mapping.target@)),
        ) ==> r@ == mapping.source@,
        has_slash(mapping.target@) && config.has_alias(
            mapping.target@.subrange(0, first_slash(mapping.target@)),
        ) ==> r@ == config.alias_path(mapping.target@.subrange(0, first_slash(mapping.target@)))
            + seq!['/'] + mapping.target@.subrange(
            first_slash(mapping.target@) + 1,
            mapping.target@.len() as int,
        ),
{
    let t = mapping.target.as_str();
    match find_slash(t) {
        None => mapping.source.clone(),
        Some(p) => {
            let n = t.unicode_len();
            let prefix = t.substring_char(0, p);
            let rest = t.substring_char(p + 1, n);
            let mut k: usize = 0;
            while k < config.aliases.len()
                invariant
                    config.wf(),
                    k <= config.aliases@.len(),
                    forall|j: int| 0 <= j < k ==> config.aliases@[j].0@ != prefix@,
                    has_slash(mapping.target@),
                    p == first_slash(mapping.target@),
                    0 <= p < mapping.target@.len(),
                    prefix@ == mapping.target@.subrange(0, p as int),
                    rest@ == mapping.target@.subrange(
                        p as int + 1,
                        mapping.target@.len() as int,
                    ),
                decreases config.aliases@.len() - k,
            {
                if str_eq(config.aliases[k].0.as_str(), prefix) {
                    let mut out = config.aliases[k].1.clone();
                    out.append("/");
                    out.append(rest);
                    proof {
                        reveal_strlit("/");
                        assert(config.has_alias(prefix@));
                        let j = config.alias_index(prefix@);
                        assert(0 <= j < config.aliases@.len() && config.aliases@[j].0@
                            == prefix@);
                        assert(j == k);
                        assert("/"@ =~= seq!['/']);
                        assert(out@ == resolved_target(*mapping, *config));
                    }
                    return out;
                }
                k += 1;
            }
            proof {
                assert(!config.has_alias(prefix@));
            }
            mapping.source.clone()
        },
    }
}

} // verus!
