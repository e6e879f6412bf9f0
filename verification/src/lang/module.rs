//! Module values: their inputs, children, properties, parameter signature, and
//! the nets they introduce, each under a name unique within the module.
use vstd::prelude::*;
use vstd::set_lib::*;

use super::component::LangValue;
use crate::strmap::StrMap;
use crate::text::{concat, decimal_text, digits_of, is_blank, is_ws, lemma_digits_injective, str_eq};

verus! {

/// Identifier of a net.
#[derive(Copy, Clone, Debug, PartialEq, Eq, Structural, Hash)]
pub struct NetId(pub u64);

impl View for NetId {
    type V = u64;

    open spec fn view(&self) -> u64 {
        self.0
    }
}

/// An input that is required but was neither provided nor defaulted.
#[derive(Debug)]
pub struct MissingInputError {
    pub name: String,
}

impl MissingInputError {
    /// The error's message.
    pub fn message(&self) -> (r: String)
        ensures
            r@ == "Input '"@ + self.name@ + "' is required but was not provided and no default value was given"@,
    {
        let mut m = concat("Input '", self.name.as_str());
        m.append("' is required but was not provided and no default value was given");
        m
    }
}

/// Metadata for a module parameter (from io() or config() calls).
#[derive(Debug, Clone)]
pub struct ParameterMetadataGen {
    /// Parameter name
    pub name: String,
    /// Type value (e.g., Net, str, int, etc.)
    pub type_value: LangValue,
    /// Whether the parameter is optional
    pub optional: bool,
    /// Default value if provided
    pub default_value: Option<LangValue>,
    /// Whether this is a config parameter (vs io parameter)
    pub is_config: bool,
    /// Help text describing the parameter
    pub help: Option<String>,
    /// The actual value returned by io() or config()
    pub actual_value: Option<LangValue>,
}

impl ParameterMetadataGen {
    /// Metadata for a parameter, without its actual value yet.
    pub fn new(
        name: String,
        type_value: LangValue,
        optional: bool,
        default_value: Option<LangValue>,
        is_config: bool,
        help: Option<String>,
    ) -> (p: Self)
        ensures
            p.name == name,
            p.type_value == type_value,
            p.optional == optional,
            p.default_value == default_value,
            p.is_config == is_config,
            p.help == help,
            p.actual_value is None,
    {
        ParameterMetadataGen { name, type_value, optional, default_value, is_config, help, actual_value: None }
    }
}

/// The name a net is given when registered under `local`: `local` itself, or
/// `N<id>` when `local` is empty or white space only.
pub open spec fn base_net_name(local: Seq<char>, id: u64) -> Seq<char> {
    if forall|i: int| 0 <= i < local.len() ==> is_ws(#[trigger] local[i]) {
        "N"@ + digits_of(id as nat)
    } else {
        local
    }
}

/// The `k`-th alternative of a name: `<base>_<k>`.
pub open spec fn suffixed(base: Seq<char>, k: nat) -> Seq<char> {
    base + "_"@ + digits_of(k)
}

/// The position of the net with the given id among the introduced nets.
pub open spec fn net_index(nets: Seq<(u64, Seq<char>)>, id: u64) -> Option<int>
    decreases nets.len(),
{
    if nets.len() == 0 {
        None
    } else {
        match net_index(nets.drop_last(), id) {
            Some(i) => Some(i),
            None => if nets.last().0 == id {
                Some(nets.len() - 1)
            } else {
                None
            },
        }
    }
}

proof fn lemma_net_index(nets: Seq<(u64, Seq<char>)>, id: u64)
    ensures
        net_index(nets, id) matches Some(i) ==> 0 <= i < nets.len() && nets[i].0 == id,
        net_index(nets, id) is None ==> forall|j: int| 0 <= j < nets.len() ==> nets[j].0 != id,
    decreases nets.len(),
{
    if nets.len() > 0 {
        lemma_net_index(nets.drop_last(), id);
        assert forall|j: int| 0 <= j < nets.len() - 1 implies nets[j] == nets.drop_last()[j] by {}
    }
}

proof fn lemma_suffixed_injective(base: Seq<char>, a: nat, b: nat)
    requires
        suffixed(base, a) == suffixed(base, b),
    ensures
        a == b,
{
    let p = base + "_"@;
    assert(suffixed(base, a) == p + digits_of(a));
    assert(suffixed(base, b) == p + digits_of(b));
    assert((p + digits_of(a)).subrange(p.len() as int, (p + digits_of(a)).len() as int) =~= digits_of(a));
    assert((p + digits_of(b)).subrange(p.len() as int, (p + digits_of(b)).len() as int) =~= digits_of(b));
    lemma_digits_injective(a, b);
}

/// Names `<base>_2` .. `<base>_<k-1>` all taken means at least `k - 2` names taken.
proof fn lemma_taken_bound(base: Seq<char>, k: int, dom: Set<Seq<char>>)
    requires
        k >= 2,
        dom.finite(),
        forall|j: int| 2 <= j < k ==> dom.contains(#[trigger] suffixed(base, j as nat)),
    ensures
        k - 2 <= dom.len(),
{
    let x = set_int_range(2, k);
    let f = |j: int| suffixed(base, j as nat);
    lemma_int_range(2, k);
    assert forall|a: int, b: int| x.contains(a) && x.contains(b) && #[trigger] f(a) == #[trigger] f(b) implies a == b by {
        lemma_suffixed_injective(base, a as nat, b as nat);
    }
    let y = x.map(f);
    lemma_map_size(x, y, f);
    assert forall|s: Seq<char>| y.contains(s) implies dom.contains(s) by {
        let j = choose|j: int| x.contains(j) && f(j) == s;
        assert(dom.contains(suffixed(base, j as nat)));
    }
    lemma_len_subset(y, dom);
}

/// A module instance.
#[derive(Debug)]
pub struct ModuleValueGen {
    name: String,
    source_path: String,
    inputs: StrMap<LangValue>,
    children: Vec<LangValue>,
    properties: StrMap<LangValue>,
    signature: Vec<ParameterMetadataGen>,
    /// Nets introduced by this module, as (id, local name), in order.
    introduced_nets: Vec<(NetId, String)>,
    /// Local name to net id, keeping names unique within the module.
    net_name_to_id: StrMap<NetId>,
}

impl ModuleValueGen {
    /// The introduced nets as (id, name).
    pub closed spec fn nets(&self) -> Seq<(u64, Seq<char>)> {
        self.introduced_nets@.map_values(|e: (NetId, String)| (e.0.0, e.1@))
    }

    /// The names taken, each with its net.
    pub closed spec fn names(&self) -> Map<Seq<char>, u64> {
        self.net_name_to_id@
    }

    /// The module's name.
    /// The file the module was loaded from.
    pub closed spec fn spec_source_path(&self) -> Seq<char> {
        self.source_path@
    }

    pub closed spec fn spec_name(&self) -> Seq<char> {
        self.name@
    }

    /// The module's inputs.
    pub closed spec fn spec_inputs(&self) -> StrMap<LangValue> {
        self.inputs
    }

    /// The module's children.
    pub closed spec fn spec_children(&self) -> Seq<LangValue> {
        self.children@
    }

    /// The module's properties.
    pub closed spec fn spec_properties(&self) -> Map<Seq<char>, (u64, Seq<char>, Option<Seq<char>>)> {
        self.properties@
    }

    /// The module's signature.
    pub closed spec fn spec_signature(&self) -> Seq<ParameterMetadataGen> {
        self.signature@
    }

    /// The parameter names of the signature, in order.
    pub closed spec fn signature_names(&self) -> Seq<Seq<char>> {
        self.signature@.map_values(|p: ParameterMetadataGen| p.name@)
    }

    /// The net tables agree: each introduced net's name maps back to it, each
    /// name belongs to an introduced net, and no net is introduced twice.
    pub closed spec fn wf(&self) -> bool {
        &&& self.net_name_to_id.wf()
        &&& self.inputs.wf()
        &&& self.properties.wf()
        &&& forall|i: int, j: int| 0 <= i < j < self.nets().len() ==> self.nets()[i].0 != self.nets()[j].0
        &&& forall|i: int|
            0 <= i < self.nets().len() ==> self.names().contains_key(#[trigger] self.nets()[i].1)
                && self.names()[self.nets()[i].1] == self.nets()[i].0
        &&& forall|n: Seq<char>|
            #[trigger] self.names().contains_key(n) ==> exists|i: int|
                0 <= i < self.nets().len() && self.nets()[i] == (self.names()[n], n)
    }

    /// A module with the given name, from the given file, with nothing in it yet.
    pub fn new(name: String, source_path: &str) -> (m: Self)
        ensures
            m.wf(),
            m.spec_name() == name@,
            m.spec_source_path() == source_path@,
            m.nets() == Seq::<(u64, Seq<char>)>::empty(),
            m.signature_names() == Seq::<Seq<char>>::empty(),
    {
        let m = ModuleValueGen {
            name,
            source_path: source_path.to_owned(),
            inputs: StrMap::new(),
            children: Vec::new(),
            properties: StrMap::new(),
            signature: Vec::new(),
            introduced_nets: Vec::new(),
            net_name_to_id: StrMap::new(),
        };
        proof {
            assert(m.nets() =~= Seq::<(u64, Seq<char>)>::empty());
            assert(m.signature_names() =~= Seq::<Seq<char>>::empty());
        }
        m
    }

    /// The file the module was loaded from.
    pub fn source_path(&self) -> (r: &str)
        ensures
            r@ == self.spec_source_path(),
    {
        self.source_path.as_str()
    }

    /// The module's name.
    pub fn name(&self) -> (r: &str)
        ensures
            r@ == self.spec_name(),
    {
        self.name.as_str()
    }

    /// The inputs given to the module.
    pub fn inputs(&self) -> (r: &StrMap<LangValue>)
        ensures
            *r == self.spec_inputs(),
    {
        &self.inputs
    }

    /// The module's children, in the order they were added.
    pub fn children(&self) -> (r: &Vec<LangValue>)
        ensures
            r@ == self.spec_children(),
    {
        &self.children
    }

    /// The custom properties attached to the module.
    pub fn properties(&self) -> (r: &StrMap<LangValue>)
        ensures
            r@ == self.spec_properties(),
    {
        &self.properties
    }

    /// Add a child.
    pub fn add_child(&mut self, child: LangValue)
        requires
            old(self).wf(),
        ensures
            final(self).wf(),
            final(self).spec_children() == old(self).spec_children().push(child),
            final(self).nets() == old(self).nets(),
    {
        self.children.push(child);
        proof {
            lemma_wf_frame(*old(self), *self);
        }
    }

    /// Set a property.
    pub fn add_property(&mut self, name: String, value: LangValue)
        requires
            old(self).wf(),
        ensures
            final(self).wf(),
            final(self).spec_properties() == old(self).spec_properties().insert(name@, value@),
            final(self).nets() == old(self).nets(),
    {
        self.properties.insert(name, value);
        proof {
            lemma_wf_frame(*old(self), *self);
        }
    }

    /// Set the user-visible name for this module.
    pub fn set_name(&mut self, name: String)
        requires
            old(self).wf(),
        ensures
            final(self).wf(),
            final(self).spec_name() == name@,
            final(self).nets() == old(self).nets(),
            final(self).names() == old(self).names(),
    {
        self.name = name;
        proof {
            lemma_wf_frame(*old(self), *self);
        }
    }

    /// Add a parameter to the signature, unless one of that name is there already.
    pub fn add_parameter_metadata(
        &mut self,
        name: String,
        type_value: LangValue,
        optional: bool,
        default_value: Option<LangValue>,
        is_config: bool,
        help: Option<String>,
        actual_value: Option<LangValue>,
    )
        requires
            old(self).wf(),
        ensures
            final(self).wf(),
            final(self).nets() == old(self).nets(),
            old(self).signature_names().contains(name@) ==> final(self).spec_signature() == old(self).spec_signature(),
            !old(self).signature_names().contains(name@) ==> final(self).spec_signature().len() == old(self).spec_signature().len() + 1
                && final(self).spec_signature().drop_last() == old(self).spec_signature() && ({
                let p = final(self).spec_signature().last();
                &&& p.name@ == name@
                &&& p.type_value == type_value
                &&& p.optional == optional
                &&& p.default_value == default_value
                &&& p.is_config == is_config
                &&& p.help == help
                &&& p.actual_value == actual_value
            }),
    {
        let mut i: usize = 0;
        while i < self.signature.len()
            invariant
                self.wf(),
                *self == *old(self),
                i <= self.signature@.len(),
                forall|k: int| 0 <= k < i ==> self.signature@[k].name@ != name@,
            decreases self.signature@.len() - i,
        {
            if self.signature[i].name == name {
                proof {
                    assert(self.signature_names()[i as int] == name@);
                }
                return;
            }
            i = i + 1;
        }
        proof {
            if self.signature_names().contains(name@) {
                let k = choose|k: int| 0 <= k < self.signature_names().len() && self.signature_names()[k] == name@;
                assert(self.signature@[k].name@ == name@);
            }
        }
        let mut param = ParameterMetadataGen::new(name, type_value, optional, default_value, is_config, help);
        param.actual_value = actual_value;
        let ghost before = self.signature@;
        self.signature.push(param);
        proof {
            assert(self.signature@.drop_last() =~= before);
            lemma_wf_frame(*old(self), *self);
        }
    }

    /// The module's signature.
    pub fn signature(&self) -> (r: &Vec<ParameterMetadataGen>)
        ensures
            r@ == self.spec_signature(),
            r@.map_values(|p: ParameterMetadataGen| p.name@) == self.signature_names(),
    {
        &self.signature
    }

    /// The nets introduced by this module, as (id, local name).
    pub fn introduced_nets(&self) -> (r: &Vec<(NetId, String)>)
        ensures
            r@.map_values(|e: (NetId, String)| (e.0.0, e.1@)) == self.nets(),
    {
        &self.introduced_nets
    }

    fn find_net(&self, id: NetId) -> (r: Option<usize>)
        ensures
            match r {
                Some(i) => net_index(self.nets(), id.0) == Some(i as int),
                None => net_index(self.nets(), id.0) is None,
            },
    {
        let mut i: usize = 0;
        proof {
            assert(self.nets().take(0) =~= Seq::<(u64, Seq<char>)>::empty());
        }
        while i < self.introduced_nets.len()
            invariant
                i <= self.introduced_nets@.len(),
                net_index(self.nets().take(i as int), id.0) is None,
            decreases self.introduced_nets@.len() - i,
        {
            proof {
                assert(self.nets().take(i + 1).drop_last() =~= self.nets().take(i as int));
                assert(self.nets().take(i + 1).last() == self.nets()[i as int]);
            }
            if self.introduced_nets[i].0 == id {
                proof {
                    lemma_net_index_prefix(self.nets(), id.0, i + 1);
                }
                return Some(i);
            }
            i = i + 1;
        }
        proof {
            assert(self.nets().take(self.introduced_nets@.len() as int) =~= self.nets());
        }
        None
    }

    /// Record that this module introduced net `id` under `local_name`. A net
    /// already recorded keeps its name. An empty or blank name becomes `N<id>`;
    /// a name another net has becomes the first free `<name>_2`, `<name>_3`, ...
    pub fn register_net(&mut self, id: NetId, local_name: String) -> (r: Result<String, String>)
        requires
            old(self).wf(),
        ensures
            final(self).wf(),
            final(self).spec_name() == old(self).spec_name(),
            match net_index(old(self).nets(), id.0) {
                Some(i) => r matches Ok(n) && n@ == old(self).nets()[i].1 && final(self).nets() == old(self).nets()
                    && final(self).names() == old(self).names(),
                None => r matches Ok(n) && final(self).nets() == old(self).nets().push((id.0, n@))
                    && !old(self).names().contains_key(n@) && final(self).names() == old(self).names().insert(
                    n@,
                    id.0,
                ) && {
                    let base = base_net_name(local_name@, id.0);
                    ||| n@ == base && !old(self).names().contains_key(base)
                    ||| old(self).names().contains_key(base) && exists|k: nat|
                        k >= 2 && n@ == suffixed(base, k) && forall|j: nat|
                            2 <= j < k ==> old(self).names().contains_key(#[trigger] suffixed(base, j))
                },
            },
    {
        match self.find_net(id) {
            Some(i) => {
                proof {
                    lemma_net_index(self.nets(), id.0);
                }
                return Ok(self.introduced_nets[i].1.clone());
            },
            None => {},
        }
        proof {
            lemma_net_index(self.nets(), id.0);
        }
        let base = if is_blank(local_name.as_str()) {
            concat("N", decimal_text(id.0 as u128).as_str())
        } else {
            local_name
        };
        let ghost bv = base@;
        proof {
            assert(bv == base_net_name(local_name@, id.0));
        }
        let unique = match self.net_name_to_id.get(base.as_str()) {
            None => base,
            Some(existing) => {
                proof {
                    let ex = self.names()[bv];
                    let w = choose|w: int| 0 <= w < self.nets().len() && self.nets()[w] == (ex, bv);
                    assert(self.nets()[w].0 != id.0);
                }
                let mut counter: u128 = 2;
                let mut candidate = concat(base.as_str(), "_");
                candidate.append(decimal_text(2).as_str());
                let total = self.net_name_to_id.len();
                proof {
                    self.net_name_to_id.lemma_dom_finite();
                }
                while self.net_name_to_id.contains_key(candidate.as_str())
                    invariant
                        base@ == bv,
                        total == self.net_name_to_id.key_order().len(),
                        self.wf(),
                        net_index(self.nets(), id.0) is None,
                        forall|j: int| 0 <= j < self.nets().len() ==> self.nets()[j].0 != id.0,
                        self.names().dom().finite(),
                        self.names().dom().len() <= self.net_name_to_id.key_order().len(),
                        counter >= 2,
                        candidate@ == suffixed(bv, counter as nat),
                        forall|j: nat| 2 <= j < counter ==> self.names().contains_key(#[trigger] suffixed(bv, j)),
                    decreases self.net_name_to_id.key_order().len() + 2 - counter,
                {
                    proof {
                        lemma_taken_bound(bv, counter + 1, self.names().dom());
                        let other = self.names()[candidate@];
                        let w = choose|w: int| 0 <= w < self.nets().len() && self.nets()[w] == (other, candidate@);
                    }
                    counter = counter + 1;
                    let mut c = concat(base.as_str(), "_");
                    c.append(decimal_text(counter).as_str());
                    candidate = c;
                }
                proof {
                    assert(self.names().contains_key(bv));
                }
                candidate
            },
        };
        let ghost old_nets = self.nets();
        let ghost old_names = self.names();
        self.net_name_to_id.insert(unique.clone(), id);
        self.introduced_nets.push((id, unique.clone()));
        proof {
            assert(self.nets() =~= old_nets.push((id.0, unique@)));
            assert forall|n: Seq<char>| #[trigger] self.names().contains_key(n) implies exists|i: int|
                0 <= i < self.nets().len() && self.nets()[i] == (self.names()[n], n) by {
                if n == unique@ {
                    assert(self.nets()[old_nets.len() as int] == (self.names()[n], n));
                } else {
                    let i = choose|i: int| 0 <= i < old_nets.len() && old_nets[i] == (old_names[n], n);
                    assert(self.nets()[i] == (self.names()[n], n));
                }
            }
            assert forall|i: int| 0 <= i < self.nets().len() implies self.names().contains_key(#[trigger] self.nets()[i].1)
                && self.names()[self.nets()[i].1] == self.nets()[i].0 by {
                if i < old_nets.len() {
                    assert(self.nets()[i] == old_nets[i]);
                    assert(old_names.contains_key(old_nets[i].1));
                }
            }
        }
        Ok(unique)
    }

    /// Remove a previously registered net, freeing its name.
    pub fn unregister_net(&mut self, id: NetId)
        requires
            old(self).wf(),
        ensures
            final(self).wf(),
            final(self).spec_name() == old(self).spec_name(),
            match net_index(old(self).nets(), id.0) {
                Some(i) => final(self).nets() == old(self).nets().remove(i) && final(self).names() == old(
                    self,
                ).names().remove(old(self).nets()[i].1),
                None => final(self).nets() == old(self).nets() && final(self).names() == old(self).names(),
            },
    {
        let i = match self.find_net(id) {
            Some(i) => i,
            None => {
                return;
            },
        };
        proof {
            lemma_net_index(self.nets(), id.0);
        }
        let ghost old_nets = self.nets();
        let ghost old_names = self.names();
        let (_, name) = self.introduced_nets.remove(i);
        self.net_name_to_id.remove(name.as_str());
        proof {
            assert(self.nets() =~= old_nets.remove(i as int));
            assert forall|a: int, b: int| 0 <= a < b < self.nets().len() implies self.nets()[a].0 != self.nets()[b].0 by {
                let a2 = if a < i { a } else { a + 1 };
                let b2 = if b < i { b } else { b + 1 };
                assert(self.nets()[a] == old_nets[a2]);
                assert(self.nets()[b] == old_nets[b2]);
            }
            assert forall|k: int| 0 <= k < self.nets().len() implies self.names().contains_key(#[trigger] self.nets()[k].1)
                && self.names()[self.nets()[k].1] == self.nets()[k].0 by {
                let k2 = if k < i { k } else { k + 1 };
                assert(self.nets()[k] == old_nets[k2]);
                assert(old_names.contains_key(old_nets[k2].1));
                if old_nets[k2].1 == name@ {
                    assert(old_names[old_nets[k2].1] == old_nets[k2].0);
                    assert(old_names[old_nets[i as int].1] == old_nets[i as int].0);
                }
            }
            assert forall|n: Seq<char>| #[trigger] self.names().contains_key(n) implies exists|k: int|
                0 <= k < self.nets().len() && self.nets()[k] == (self.names()[n], n) by {
                let k = choose|k: int| 0 <= k < old_nets.len() && old_nets[k] == (old_names[n], n);
                assert(k != i);
                let k2 = if k < i { k } else { k - 1 };
                assert(self.nets()[k2] == old_nets[k]);
            }
        }
    }
}

proof fn lemma_wf_frame(a: ModuleValueGen, b: ModuleValueGen)
    requires
        a.wf(),
        a.nets() == b.nets(),
        a.net_name_to_id == b.net_name_to_id,
        b.inputs.wf(),
        b.properties.wf(),
    ensures
        b.wf(),
{
    assert(a.names() == b.names());
    assert forall|n: Seq<char>| #[trigger] b.names().contains_key(n) implies exists|i: int|
        0 <= i < b.nets().len() && b.nets()[i] == (b.names()[n], n) by {
        assert(a.names().contains_key(n));
        let i = choose|i: int| 0 <= i < a.nets().len() && a.nets()[i] == (a.names()[n], n);
        assert(b.nets()[i] == (b.names()[n], n));
    }
}

proof fn lemma_net_index_prefix(nets: Seq<(u64, Seq<char>)>, id: u64, i: int)
    requires
        0 <= i <= nets.len(),
        net_index(nets.take(i), id) is Some,
    ensures
        net_index(nets, id) == net_index(nets.take(i), id),
    decreases nets.len() - i,
{
    if i < nets.len() {
        assert(nets.take(i + 1).drop_last() =~= nets.take(i));
        lemma_net_index_prefix(nets, id, i + 1);
    } else {
        assert(nets.take(i) =~= nets);
    }
}

} // verus!
