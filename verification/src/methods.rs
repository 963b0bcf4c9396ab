//! The DID method registry: a name-keyed collection of method
//! implementations that dispatches a create request to the matching method.
//! It is built once, before use, and read-only thereafter.

use vstd::prelude::*;

use crate::client::{ion_create_post, SidetreeClient};
use crate::dids::{didcreate_wf, DIDCreate, DIDMethodError, DIDMethodTransaction};
use crate::json::str_eq_chars;
use crate::web::{web_create_post, DIDWEB};

verus! {

/// One registered DID method implementation, from the closed set of methods
/// this crate offers.
pub enum AnyDIDMethod {
    Web(DIDWEB),
    Ion(SidetreeClient),
}

impl AnyDIDMethod {
    /// The method's name, as the registry keys it.
    pub open spec fn spec_name(&self) -> Seq<char> {
        match self {
            AnyDIDMethod::Web(_) => "web"@,
            AnyDIDMethod::Ion(_) => "ion"@,
        }
    }

    /// The method's name.
    pub fn name(&self) -> (r: &'static str)
        ensures
            r@ == self.spec_name(),
    {
        match self {
            AnyDIDMethod::Web(m) => m.name(),
            AnyDIDMethod::Ion(m) => m.name(),
        }
    }

    /// Creates a DID through this method.
    pub fn create(&self, create: DIDCreate) -> (r: Result<DIDMethodTransaction, DIDMethodError>)
        requires
            didcreate_wf(create),
        ensures
            match self {
                AnyDIDMethod::Web(_) => web_create_post(r),
                AnyDIDMethod::Ion(_) => ion_create_post(create, r),
            },
    {
        match self {
            AnyDIDMethod::Web(m) => m.create(create),
            AnyDIDMethod::Ion(m) => m.create(create),
        }
    }

    /// The update operation is not implemented for any method here.
    pub fn update(&self) -> (r: Result<DIDMethodTransaction, DIDMethodError>)
        ensures
            r matches Result::Err(DIDMethodError::NotImplemented(op)) && op@
                == "Update operation"@,
    {
        Result::Err(DIDMethodError::NotImplemented("Update operation"))
    }

    /// The recover operation is not implemented for any method here.
    pub fn recover(&self) -> (r: Result<DIDMethodTransaction, DIDMethodError>)
        ensures
            r matches Result::Err(DIDMethodError::NotImplemented(op)) && op@
                == "Recover operation"@,
    {
        Result::Err(DIDMethodError::NotImplemented("Recover operation"))
    }

    /// The deactivate operation is not implemented for any method here.
    pub fn deactivate(&self) -> (r: Result<DIDMethodTransaction, DIDMethodError>)
        ensures
            r matches Result::Err(DIDMethodError::NotImplemented(op)) && op@
                == "Deactivate operation"@,
    {
        Result::Err(DIDMethodError::NotImplemented("Deactivate operation"))
    }
}

/// A collection of DID methods, keyed by method name. Names are unique;
/// inserting under a name that is present replaces that method, silently, and
/// hands the replaced one back.
pub struct DIDMethods {
    methods: Vec<AnyDIDMethod>,
}

impl DIDMethods {
    /// Registered names are unique.
    pub closed spec fn wf(&self) -> bool {
        forall|i: int, j: int|
            0 <= i < j < self.methods@.len() ==> (#[trigger] self.methods@[i]).spec_name() != (
            #[trigger] self.methods@[j]).spec_name()
    }

    /// True when a method of the given name is registered.
    pub closed spec fn has(&self, n: Seq<char>) -> bool {
        exists|i: int|
            0 <= i < self.methods@.len() && (#[trigger] self.methods@[i]).spec_name() == n
    }

    /// The registered method of the given name.
    pub closed spec fn get_spec(&self, n: Seq<char>) -> AnyDIDMethod {
        self.methods@[choose|i: int|
            0 <= i < self.methods@.len() && (#[trigger] self.methods@[i]).spec_name() == n]
    }

    /// The element at a position of a well-formed registry is the method
    /// registered under its name.
    proof fn lemma_get_at(&self, i: int)
        requires
            self.wf(),
            0 <= i < self.methods@.len(),
        ensures
            self.has(self.methods@[i].spec_name()),
            self.get_spec(self.methods@[i].spec_name()) == self.methods@[i],
    {
        let n = self.methods@[i].spec_name();
        assert(self.has(n));
        let j = choose|j: int|
            0 <= j < self.methods@.len() && (#[trigger] self.methods@[j]).spec_name() == n;
        if i != j {
            assert(self.methods@[i].spec_name() != self.methods@[j].spec_name());
        }
    }

    /// Adds a DID method to the set, keyed by its name. Returns the method
    /// previously registered under that name, if any, which this one
    /// replaces; every other registration is unchanged.
    #[verifier::loop_isolation(false)]
    pub fn insert(&mut self, method: AnyDIDMethod) -> (r: Option<AnyDIDMethod>)
        requires
            old(self).wf(),
        ensures
            final(self).wf(),
            r is Some <==> old(self).has(method.spec_name()),
            r matches Option::Some(prev) ==> prev == old(self).get_spec(method.spec_name()),
            final(self).has(method.spec_name()),
            final(self).get_spec(method.spec_name()) == method,
            forall|n: Seq<char>|
                #[trigger] final(self).has(n) <==> old(self).has(n) || n == method.spec_name(),
            forall|n: Seq<char>|
                n != method.spec_name() && old(self).has(n) ==> #[trigger] final(self).get_spec(n)
                    == old(self).get_spec(n),
    {
        let ghost orig = *self;
        let name = method.name();
        let mut i: usize = 0;
        while i < self.methods.len()
            invariant
                *self == orig,
                i <= self.methods@.len(),
                forall|j: int|
                    0 <= j < i ==> (#[trigger] self.methods@[j]).spec_name()
                        != method.spec_name(),
                name@ == method.spec_name(),
            decreases self.methods@.len() - i,
        {
            if str_eq_chars(self.methods[i].name(), name) {
                let prev = self.methods.remove(i);
                self.methods.insert(i, method);
                proof {
                    assert(self.methods@ =~= orig.methods@.update(i as int, method));
                    assert(prev.spec_name() == method.spec_name());
                    orig.lemma_get_at(i as int);
                    assert forall|a: int, b: int|
                        0 <= a < b < self.methods@.len() implies (
                    #[trigger] self.methods@[a]).spec_name() != (
                    #[trigger] self.methods@[b]).spec_name() by {
                        assert(orig.methods@[a].spec_name() != orig.methods@[b].spec_name());
                    }
                    assert(self.methods@[i as int].spec_name() == method.spec_name());
                    self.lemma_get_at(i as int);
                    assert forall|n: Seq<char>| #[trigger]
                        self.has(n) <==> orig.has(n) || n == method.spec_name() by {
                        if self.has(n) {
                            let a = choose|a: int|
                                0 <= a < self.methods@.len() && (
                                #[trigger] self.methods@[a]).spec_name() == n;
                            if a != i as int {
                                assert(orig.methods@[a].spec_name() == n);
                                assert(orig.has(n));
                            }
                        }
                        if orig.has(n) {
                            let a = choose|a: int|
                                0 <= a < orig.methods@.len() && (
                                #[trigger] orig.methods@[a]).spec_name() == n;
                            if a != i as int {
                                assert(self.methods@[a].spec_name() == n);
                                assert(self.has(n));
                            }
                        }
                    }
                    assert forall|n: Seq<char>|
                        n != method.spec_name() && orig.has(n) implies #[trigger] self.get_spec(n)
                            == orig.get_spec(n) by {
                        let a = choose|a: int|
                            0 <= a < orig.methods@.len() && (
                            #[trigger] orig.methods@[a]).spec_name() == n;
                        assert(self.methods@[a].spec_name() == n);
                        orig.lemma_get_at(a);
                        self.lemma_get_at(a);
                    }
                }
                return Option::Some(prev);
            }
            i += 1;
        }
        self.methods.push(method);
        proof {
            assert(self.methods@ =~= orig.methods@.push(method));
            let k = self.methods@.len() - 1;
            assert(self.methods@[k].spec_name() == method.spec_name());
            assert forall|a: int, b: int|
                0 <= a < b < self.methods@.len() implies (
            #[trigger] self.methods@[a]).spec_name() != (#[trigger] self.methods@[b]).spec_name() by {
                if b < k {
                    assert(orig.methods@[a].spec_name() != orig.methods@[b].spec_name());
                } else {
                    assert(self.methods@[a].spec_name() != method.spec_name());
                }
            }
            assert(!orig.has(method.spec_name()));
            self.lemma_get_at(k);
            assert forall|n: Seq<char>| #[trigger]
                self.has(n) <==> orig.has(n) || n == method.spec_name() by {
                if self.has(n) {
                    let a = choose|a: int|
                        0 <= a < self.methods@.len() && (#[trigger] self.methods@[a]).spec_name()
                            == n;
                    if a < k {
                        assert(orig.methods@[a].spec_name() == n);
                        assert(orig.has(n));
                    }
                }
                if orig.has(n) {
                    let a = choose|a: int|
                        0 <= a < orig.methods@.len() && (#[trigger] orig.methods@[a]).spec_name()
                            == n;
                    assert(self.methods@[a].spec_name() == n);
                    assert(self.has(n));
                }
            }
            assert forall|n: Seq<char>|
                n != method.spec_name() && orig.has(n) implies #[trigger] self.get_spec(n)
                    == orig.get_spec(n) by {
                let a = choose|a: int|
                    0 <= a < orig.methods@.len() && (#[trigger] orig.methods@[a]).spec_name() == n;
                assert(self.methods@[a].spec_name() == n);
                orig.lemma_get_at(a);
                self.lemma_get_at(a);
            }
        }
        Option::None
    }

    /// Looks up the DID method registered under the given name.
    #[verifier::loop_isolation(false)]
    pub fn get<'a>(&'a self, method_name: &str) -> (r: Option<&'a AnyDIDMethod>)
        requires
            self.wf(),
        ensures
            match r {
                Option::Some(m) => self.has(method_name@) && *m == self.get_spec(method_name@),
                Option::None => !self.has(method_name@),
            },
    {
        let mut i: usize = 0;
        while i < self.methods.len()
            invariant
                i <= self.methods@.len(),
                forall|j: int|
                    0 <= j < i ==> (#[trigger] self.methods@[j]).spec_name() != method_name@,
            decreases self.methods@.len() - i,
        {
            if str_eq_chars(self.methods[i].name(), method_name) {
                proof {
                    self.lemma_get_at(i as int);
                }
                return Option::Some(&self.methods[i]);
            }
            i += 1;
        }
        proof {
            if self.has(method_name@) {
                let a = choose|a: int|
                    0 <= a < self.methods@.len() && (#[trigger] self.methods@[a]).spec_name()
                        == method_name@;
                assert(self.methods@[a].spec_name() != method_name@);
            }
        }
        Option::None
    }
}

impl Default for DIDMethods {
    /// An empty registry.
    fn default() -> (r: Self)
        ensures
            r.wf(),
            forall|n: Seq<char>| !(#[trigger] r.has(n)),
    {
        DIDMethods { methods: Vec::new() }
    }
}

/// The default registry: the did:web method and the Sidetree
/// client for did:ion, the latter configured with the given optional API URL.
pub fn default_did_methods(ion_api_url: Option<String>) -> (r: DIDMethods)
    ensures
        r.wf(),
        r.has("web"@),
        r.has("ion"@),
        r.get_spec("web"@) is Web,
        (r.get_spec("ion"@) matches AnyDIDMethod::Ion(c) && c.endpoint == ion_api_url),
{
    let mut methods = DIDMethods::default();
    let ion = SidetreeClient::new(ion_api_url);
    methods.insert(AnyDIDMethod::Web(DIDWEB));
    methods.insert(AnyDIDMethod::Ion(ion));
    proof {
        reveal_strlit("web");
        reveal_strlit("ion");
        assert(("web"@)[0] != ("ion"@)[0]);
        assert("web"@ != "ion"@);
    }
    methods
}

/// Routes a create request to the method of the given name: an unknown name
/// is a distinct caller error, never a silent no-op.
pub fn create_transaction(methods: &DIDMethods, method_name: &str, create: DIDCreate) -> (r:
    Result<DIDMethodTransaction, DIDMethodError>)
    requires
        methods.wf(),
        didcreate_wf(create),
    ensures
        !methods.has(method_name@) ==> (r matches Result::Err(DIDMethodError::UnknownMethod(n))
            && n@ == method_name@),
        methods.has(method_name@) ==> match methods.get_spec(method_name@) {
            AnyDIDMethod::Web(_) => web_create_post(r),
            AnyDIDMethod::Ion(_) => ion_create_post(create, r),
        },
{
    match methods.get(method_name) {
        Option::Some(m) => m.create(create),
        Option::None => Result::Err(DIDMethodError::UnknownMethod(method_name.to_owned())),
    }
}

} // verus!
