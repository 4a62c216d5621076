use vstd::prelude::*;
use vstd::string::StringExecFns;
use crate::common::{lemma_safe_encoded_injective, push_char, safe_encode, safe_encoded};

verus! {

/// The registry used when a package names none.
pub fn default_registry() -> (r: String)
    ensures
        r@ == "https://registry.npmjs.org/"@,
{
    "https://registry.npmjs.org/".to_owned()
}

/// Certificates are verified unless a package says otherwise.
pub fn default_ssl_verify() -> (r: bool)
    ensures
        r,
{
    true
}

/// The file served for a request with an empty path.
pub fn default_index_file() -> (r: String)
    ensures
        r@ == "index.html"@,
{
    "index.html".to_owned()
}

/// Texts shown on the pages.
#[derive(Debug, Clone)]
pub struct Labels {
    pub title: String,
    pub banner: String,
    pub version: String,
    pub published: String,
}

/// One tracked package and how to reach its registry.
#[derive(Debug, Clone)]
pub struct PackageConfig {
    pub name: String,
    pub alias: Option<String>,
    pub registry: String,
    pub access_token: Option<String>,
    pub ssl_verify: bool,
    pub index_file: String,
}

/// The whole configuration.
#[derive(Debug, Clone)]
pub struct Config {
    pub listen_address: String,
    pub timeago_language: Option<String>,
    pub banner_gradient_left_color: String,
    pub banner_gradient_right_color: String,
    pub banner_color: String,
    pub labels: Labels,
    pub packages: Vec<PackageConfig>,
}

/// The name a package is shown and looked up by: its alias if it has one.
pub open spec fn public_name(p: PackageConfig) -> Seq<char> {
    match p.alias {
        Some(a) => a@,
        None => p.name@,
    }
}

/// The escaped registry URL, a `|`, then the package name: no two distinct
/// (registry, name) pairs share it (`lemma_key_injective`).
pub open spec fn config_key(p: PackageConfig) -> Seq<char> {
    escaped(p.registry@) + seq!['|'] + p.name@
}

/// A registry character as it stands in a package key: `|` and `\` are
/// escaped with a `\`, every other character stands for itself.
pub open spec fn escaped_char(c: char) -> Seq<char> {
    if c == '|' || c == '\\' {
        seq!['\\', c]
    } else {
        seq![c]
    }
}

pub open spec fn escaped(s: Seq<char>) -> Seq<char>
    decreases s.len(),
{
    if s.len() == 0 {
        Seq::empty()
    } else {
        escaped_char(s[0]) + escaped(s.subrange(1, s.len() as int))
    }
}

proof fn lemma_escaped_push(s: Seq<char>, c: char)
    ensures
        escaped(s.push(c)) == escaped(s) + escaped_char(c),
    decreases s.len(),
{
    if s.len() == 0 {
        assert(s.push(c).subrange(1, 1) =~= Seq::<char>::empty());
        assert(escaped(Seq::<char>::empty()) == Seq::<char>::empty());
        assert(s.push(c)[0] == c);
        assert(escaped(s) == Seq::<char>::empty());
        assert(escaped(s.push(c)) =~= escaped_char(c));
    } else {
        let t = s.subrange(1, s.len() as int);
        lemma_escaped_push(t, c);
        assert(s.push(c).subrange(1, s.len() as int + 1) =~= t.push(c));
        assert(escaped(s.push(c)) =~= escaped(s) + escaped_char(c));
    }
}

proof fn lemma_escaped_unique(a: Seq<char>, x: Seq<char>, b: Seq<char>, y: Seq<char>)
    requires
        escaped(a) + seq!['|'] + x == escaped(b) + seq!['|'] + y,
    ensures
        a == b,
        x == y,
    decreases a.len(),
{
    let k = escaped(a) + seq!['|'] + x;
    if a.len() == 0 {
        assert(k[0] == '|');
        if b.len() > 0 {
            assert(k[0] == escaped_char(b[0])[0]);
        }
        assert(b =~= a);
        assert(x =~= k.subrange(1, k.len() as int));
        assert(y =~= k.subrange(1, k.len() as int));
    } else {
        let a1 = a.subrange(1, a.len() as int);
        let ca = escaped_char(a[0]);
        assert(k[0] == ca[0]);
        if b.len() == 0 {
            assert(k[0] == '|');
            assert(false);
        } else {
            let b1 = b.subrange(1, b.len() as int);
            let cb = escaped_char(b[0]);
            assert(k[0] == cb[0]);
            assert(ca.len() == cb.len());
            if ca.len() == 2 {
                assert(k[1] == ca[1] && k[1] == cb[1]);
            }
            assert(a[0] == b[0]);
            let n = ca.len() as int;
            assert(k.subrange(n, k.len() as int) =~= escaped(a1) + seq!['|'] + x);
            assert(k.subrange(n, k.len() as int) =~= escaped(b1) + seq!['|'] + y);
            lemma_escaped_unique(a1, x, b1, y);
            assert(a =~= seq![a[0]] + a1);
            assert(b =~= seq![b[0]] + b1);
        }
    }
}

/// Package keys tell packages apart: two configurations with one key have
/// the same registry and the same name.
pub proof fn lemma_key_injective(a: PackageConfig, b: PackageConfig)
    ensures
        config_key(a) == config_key(b) ==> a.registry@ == b.registry@ && a.name@
            == b.name@,
{
    if config_key(a) == config_key(b) {
        lemma_escaped_unique(a.registry@, a.name@, b.registry@, b.name@);
    }
}


/// The key made fit for a directory name: `explorer_` and the key's
/// directory-safe form.
pub open spec fn safe_key(p: PackageConfig) -> Seq<char> {
    "explorer_"@ + safe_encoded(config_key(p))
}

impl PackageConfig {
    pub fn get_public_name(&self) -> (r: &String)
        ensures
            r@ == public_name(*self),
    {
        match &self.alias {
            Some(alias) => alias,
            None => &self.name,
        }
    }

    /// The key the package's manifest is cached and fetched under, and its
    /// unpacked files are named after.
    pub fn key(&self) -> (r: String)
        ensures
            r@ == config_key(*self),
    {
        let registry = self.registry.as_str();
        let len = registry.unicode_len();
        let mut key = String::new();
        let mut i: usize = 0;
        while i < len
            invariant
                len == registry@.len(),
                registry@ == self.registry@,
                i <= len,
                key@ == escaped(registry@.subrange(0, i as int)),
            decreases len - i,
        {
            let c = registry.get_char(i);
            if c == '|' || c == '\\' {
                push_char(&mut key, '\\');
            }
            push_char(&mut key, c);
            proof {
                lemma_escaped_push(registry@.subrange(0, i as int), c);
                assert(registry@.subrange(0, i + 1) =~= registry@.subrange(0, i as int).push(c));
                assert(key@ =~= escaped(registry@.subrange(0, i as int)) + escaped_char(c));
            }
            i = i + 1;
        }
        proof {
            assert(registry@.subrange(0, len as int) =~= registry@);
        }
        push_char(&mut key, '|');
        key.append(self.name.as_str());
        key
    }

    /// The key made fit for a directory name: `explorer_`, then the key with
    /// every character but a lower-case ASCII letter or digit written as `_`
    /// and six hexadecimal digits. Distinct packages get distinct names
    /// (`lemma_safe_key_injective`).
    pub fn identifier_safe_key(&self) -> (r: String)
        ensures
            r@ == safe_key(*self),
    {
        let mut result = "explorer_".to_owned();
        let key = self.key();
        let encoded = safe_encode(key.as_str());
        result.append(encoded.as_str());
        result
    }
}

/// Directory names tell packages apart: two configurations with one
/// identifier-safe key have the same registry and the same name.
pub proof fn lemma_safe_key_injective(a: PackageConfig, b: PackageConfig)
    ensures
        safe_key(a) == safe_key(b) ==> a.registry@ == b.registry@ && a.name@ == b.name@,
{
    if safe_key(a) == safe_key(b) {
        let p = "explorer_"@;
        assert(safe_key(a).subrange(p.len() as int, safe_key(a).len() as int) =~= safe_encoded(
            config_key(a),
        ));
        assert(safe_key(b).subrange(p.len() as int, safe_key(b).len() as int) =~= safe_encoded(
            config_key(b),
        ));
        lemma_safe_encoded_injective(config_key(a), config_key(b));
        lemma_key_injective(a, b);
    }
}

impl Config {
    /// The first package whose public name is `name`.
    pub fn get_package(&self, name: &str) -> (r: Option<&PackageConfig>)
        ensures
            match r {
                Some(p) => exists|i: int|
                    0 <= i < self.packages@.len() && self.packages@[i] == *p && public_name(*p)
                        == name@ && forall|j: int|
                        0 <= j < i ==> public_name(#[trigger] self.packages@[j]) != name@,
                None => forall|i: int|
                    0 <= i < self.packages@.len() ==> public_name(#[trigger] self.packages@[i])
                        != name@,
            },
    {
        let target = name.to_owned();
        let mut i: usize = 0;
        while i < self.packages.len()
            invariant
                i <= self.packages@.len(),
                target@ == name@,
                forall|j: int| 0 <= j < i ==> public_name(#[trigger] self.packages@[j]) != name@,
            decreases self.packages@.len() - i,
        {
            let item = &self.packages[i];
            let public = item.get_public_name();
            if *public == target {
                return Some(item);
            }
            i = i + 1;
        }
        None
    }

    pub fn get_first_package(&self) -> (r: Option<&PackageConfig>)
        ensures
            self.packages@.len() == 0 ==> r is None,
            self.packages@.len() > 0 ==> r == Some(&self.packages@[0]),
    {
        if self.packages.len() > 0 {
            Some(&self.packages[0])
        } else {
            None
        }
    }
}

} // verus!
