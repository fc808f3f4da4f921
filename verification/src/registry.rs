//! The model catalog: immutable after construction, read by every dispatch.

use vstd::prelude::*;

use crate::errors::ConfigError;

verus! {

/// Backend engine family a model is served by.
#[derive(Debug, Clone, Copy, PartialEq, Eq, Structural)]
pub enum Backend {
    Candle,
    LlamaCpp,
    Vllm,
}

/// Static description of one addressable model.
#[derive(Debug)]
pub struct ModelSpec {
    pub name: String,
    pub path: String,
    pub backend: Backend,
    pub tokenizer: String,
    pub quant: Option<String>,
    pub max_ctx: usize,
}

/// Mathematical image of a `ModelSpec`.
pub ghost struct SpecModel {
    pub name: Seq<char>,
    pub path: Seq<char>,
    pub backend: Backend,
    pub tokenizer: Seq<char>,
    pub quant: Option<Seq<char>>,
    pub max_ctx: nat,
}

impl View for ModelSpec {
    type V = SpecModel;

    open spec fn view(&self) -> SpecModel {
        SpecModel {
            name: self.name@,
            path: self.path@,
            backend: self.backend,
            tokenizer: self.tokenizer@,
            quant: match self.quant {
                Some(q) => Some(q@),
                None => None,
            },
            max_ctx: self.max_ctx as nat,
        }
    }
}

impl ModelSpec {
    /// A field-for-field copy of this spec.
    pub fn duplicate(&self) -> (r: ModelSpec)
        ensures
            r@ == self@,
    {
        ModelSpec {
            name: self.name.clone(),
            path: self.path.clone(),
            backend: self.backend,
            tokenizer: self.tokenizer.clone(),
            quant: match &self.quant {
                Some(q) => Some(q.clone()),
                None => None,
            },
            max_ctx: self.max_ctx,
        }
    }
}

/// Catalog of known models. Built once at startup; never edited in place.
#[derive(Debug)]
pub struct ModelRegistry {
    pub models: Vec<ModelSpec>,
}

impl View for ModelRegistry {
    type V = Seq<SpecModel>;

    open spec fn view(&self) -> Seq<SpecModel> {
        self.models@.map_values(|m: ModelSpec| m@)
    }
}

/// Index of the first model named `name`, or -1 when none exists.
pub open spec fn reg_find(ms: Seq<SpecModel>, name: Seq<char>) -> int
    decreases ms.len(),
{
    if ms.len() == 0 {
        -1
    } else if ms[0].name == name {
        0
    } else {
        let r = reg_find(ms.subrange(1, ms.len() as int), name);
        if r < 0 {
            -1
        } else {
            r + 1
        }
    }
}

/// `reg_find` answers the first index carrying `name`, or -1 exactly when
/// no model does.
pub proof fn lemma_reg_find(ms: Seq<SpecModel>, name: Seq<char>)
    ensures
        reg_find(ms, name) == -1 ==> forall|i: int| 0 <= i < ms.len() ==> ms[i].name != name,
        reg_find(ms, name) != -1 ==> {
            let r = reg_find(ms, name);
            &&& 0 <= r < ms.len()
            &&& ms[r].name == name
            &&& forall|i: int| 0 <= i < r ==> ms[i].name != name
        },
    decreases ms.len(),
{
    if ms.len() > 0 && ms[0].name != name {
        let sub = ms.subrange(1, ms.len() as int);
        lemma_reg_find(sub, name);
        let r = reg_find(sub, name);
        if r == -1 {
            assert forall|i: int| 0 <= i < ms.len() implies ms[i].name != name by {
                if i > 0 {
                    assert(ms[i] == sub[i - 1]);
                }
            }
        } else {
            assert(ms[r + 1] == sub[r]);
            assert forall|i: int| 0 <= i < r + 1 implies ms[i].name != name by {
                if i > 0 {
                    assert(ms[i] == sub[i - 1]);
                }
            }
        }
    }
}

/// No two models share a name.
pub open spec fn reg_names_unique(ms: Seq<SpecModel>) -> bool {
    forall|i: int, j: int| 0 <= i < j < ms.len() ==> ms[i].name != ms[j].name
}

/// Every model announces a usable context window.
pub open spec fn reg_ctx_positive(ms: Seq<SpecModel>) -> bool {
    forall|i: int| 0 <= i < ms.len() ==> (#[trigger] ms[i]).max_ctx > 0
}

impl ModelRegistry {
    /// Build the catalog. Ambiguity is a configuration error, not a routing
    /// decision: a duplicated name is rejected here, never silently
    /// overwritten; so is a model with no context window.
    pub fn new(models: Vec<ModelSpec>) -> (r: Result<ModelRegistry, ConfigError>)
        ensures
            match r {
                Ok(reg) => reg@ == models@.map_values(|m: ModelSpec| m@) && reg_names_unique(reg@)
                    && reg_ctx_positive(reg@),
                Err(e) => {
                    let ms = models@.map_values(|m: ModelSpec| m@);
                    match e {
                        ConfigError::InvalidContextWindow => !reg_ctx_positive(ms),
                        ConfigError::DuplicateName => reg_ctx_positive(ms) && !reg_names_unique(
                            ms,
                        ),
                    }
                },
            },
    {
        let ghost ms = models@.map_values(|m: ModelSpec| m@);
        let n = models.len();
        let mut i: usize = 0;
        while i < n
            invariant
                n == models@.len(),
                ms == models@.map_values(|m: ModelSpec| m@),
                i <= n,
                forall|t: int| 0 <= t < i ==> (#[trigger] ms[t]).max_ctx > 0,
            decreases n - i,
        {
            if models[i].max_ctx == 0 {
                proof {
                    assert(ms[i as int].max_ctx == 0);
                }
                return Err(ConfigError::InvalidContextWindow);
            }
            i += 1;
        }
        let mut a: usize = 0;
        while a < n
            invariant
                n == models@.len(),
                ms == models@.map_values(|m: ModelSpec| m@),
                a <= n,
                reg_ctx_positive(ms),
                forall|s: int, t: int| 0 <= s < t < ms.len() && s < a ==> ms[s].name != ms[t].name,
            decreases n - a,
        {
            let mut b: usize = a + 1;
            while b < n
                invariant
                    n == models@.len(),
                    ms == models@.map_values(|m: ModelSpec| m@),
                    a < b <= n,
                    a < n,
                    reg_ctx_positive(ms),
                    forall|t: int| a < t < b ==> ms[a as int].name != ms[t].name,
                decreases n - b,
            {
                if models[a].name == models[b].name {
                    proof {
                        assert(ms[a as int].name == ms[b as int].name);
                    }
                    return Err(ConfigError::DuplicateName);
                }
                b += 1;
            }
            a += 1;
        }
        Ok(ModelRegistry { models })
    }

    /// Look a model up by name; a copy of its spec, if it is known.
    pub fn get(&self, name: &String) -> (r: Option<ModelSpec>)
        ensures
            match r {
                Some(m) => 0 <= reg_find(self@, name@) < self@.len() && m@ == self@[reg_find(
                    self@,
                    name@,
                )] && m@.name == name@,
                None => reg_find(self@, name@) == -1 && (forall|i: int|
                    0 <= i < self@.len() ==> (#[trigger] self@[i]).name != name@),
            },
    {
        let n = self.models.len();
        let mut i: usize = 0;
        while i < n
            invariant
                n == self.models@.len(),
                i <= n,
                forall|j: int| 0 <= j < i ==> (#[trigger] self@[j]).name != name@,
            decreases n - i,
        {
            if self.models[i].name == *name {
                proof {
                    lemma_reg_find(self@, name@);
                    assert(self@[i as int] == self.models@[i as int]@);
                    assert(self@[i as int].name == name@);
                    let r = reg_find(self@, name@);
                    assert(r != -1);
                    if r < i as int {
                        assert(self@[r].name == name@);
                        assert(false);
                    }
                    if r > i as int {
                        assert(self@[i as int].name != name@);
                        assert(false);
                    }
                }
                return Some(self.models[i].duplicate());
            }
            i += 1;
        }
        proof {
            lemma_reg_find(self@, name@);
            if reg_find(self@, name@) != -1 {
                assert(self@[reg_find(self@, name@)].name == name@);
                assert(false);
            }
        }
        None
    }
}

} // verus!
