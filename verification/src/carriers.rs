//! The carriers: one per architecture, each with the ids that it claims and
//! the sources that it refuses, and the registry that dispatches to them.

use vstd::prelude::*;

verus! {

/// One architecture's load contract.
pub trait Carrier {
    /// The carrier's name.
    spec fn label(&self) -> Seq<char>;

    /// Whether the carrier claims an architecture id. The ids of model files
    /// and those derived for directories are two namespaces.
    spec fn claims(&self, arch_id: u32, is_dir: bool) -> bool;

    /// Why the carrier does not load a source on `pp` devices; nothing where it does.
    spec fn refusal(&self, is_dir: bool, pp: usize) -> Option<Seq<char>>;

    /// The carrier's name.
    fn name(&self) -> (r: &'static str)
        ensures
            r@ == self.label(),
    ;

    /// Whether the carrier claims an architecture id.
    fn claims_arch_id(&self, arch_id: u32, is_dir: bool) -> (r: bool)
        ensures
            r == self.claims(arch_id, is_dir),
    ;

    /// Accepts a source on `pp` devices, or says why not.
    fn accept(&self, is_dir: bool, pp: usize) -> (r: Result<(), String>)
        ensures
            match self.refusal(is_dir, pp) {
                Some(e) => r is Err && r->Err_0@ == e,
                None => r is Ok,
            },
    ;
}

/// Qwen2 model files. Qwen2 directories derive to the plain id and are Llama's.
#[derive(Debug, Clone, Copy, PartialEq, Eq, Structural)]
pub struct Qwen2Carrier;

impl Carrier for Qwen2Carrier {
    open spec fn label(&self) -> Seq<char> {
        "qwen2"@
    }

    open spec fn claims(&self, arch_id: u32, is_dir: bool) -> bool {
        !is_dir && arch_id == 7
    }

    open spec fn refusal(&self, is_dir: bool, pp: usize) -> Option<Seq<char>> {
        if pp > 1 {
            Some("qwen2: pipeline-parallel (pp>1) unsupported"@)
        } else if is_dir {
            Some("qwen2: directory source unsupported"@)
        } else {
            None
        }
    }

    fn name(&self) -> (r: &'static str) {
        "qwen2"
    }

    fn claims_arch_id(&self, arch_id: u32, is_dir: bool) -> (r: bool) {
        !is_dir && arch_id == 7
    }

    fn accept(&self, is_dir: bool, pp: usize) -> (r: Result<(), String>) {
        if pp > 1 {
            return Err("qwen2: pipeline-parallel (pp>1) unsupported".to_owned());
        }
        if is_dir {
            return Err("qwen2: directory source unsupported".to_owned());
        }
        Ok(())
    }
}

/// Qwen3.5, dense and with experts; the only one that splits over devices.
#[derive(Debug, Clone, Copy, PartialEq, Eq, Structural)]
pub struct Qwen35Carrier;

impl Carrier for Qwen35Carrier {
    open spec fn label(&self) -> Seq<char> {
        "qwen35"@
    }

    open spec fn claims(&self, arch_id: u32, is_dir: bool) -> bool {
        arch_id == 5 || arch_id == 6
    }

    open spec fn refusal(&self, is_dir: bool, pp: usize) -> Option<Seq<char>> {
        if pp > 1 && is_dir {
            Some("qwen35: safetensors + pp>1 unsupported"@)
        } else {
            None
        }
    }

    fn name(&self) -> (r: &'static str) {
        "qwen35"
    }

    fn claims_arch_id(&self, arch_id: u32, is_dir: bool) -> (r: bool) {
        arch_id == 5 || arch_id == 6
    }

    fn accept(&self, is_dir: bool, pp: usize) -> (r: Result<(), String>) {
        if pp > 1 && is_dir {
            return Err("qwen35: safetensors + pp>1 unsupported".to_owned());
        }
        Ok(())
    }
}

/// Llama, Mistral and the plain Qwens.
#[derive(Debug, Clone, Copy, PartialEq, Eq, Structural)]
pub struct LlamaCarrier;

impl Carrier for LlamaCarrier {
    open spec fn label(&self) -> Seq<char> {
        "llama"@
    }

    open spec fn claims(&self, arch_id: u32, is_dir: bool) -> bool {
        arch_id == 0 || arch_id == 1
    }

    open spec fn refusal(&self, is_dir: bool, pp: usize) -> Option<Seq<char>> {
        if pp > 1 {
            if is_dir {
                Some("llama: safetensors + pp>1 unsupported"@)
            } else {
                Some("llama: pipeline-parallel (pp>1) unsupported"@)
            }
        } else {
            None
        }
    }

    fn name(&self) -> (r: &'static str) {
        "llama"
    }

    fn claims_arch_id(&self, arch_id: u32, is_dir: bool) -> (r: bool) {
        arch_id == 0 || arch_id == 1
    }

    fn accept(&self, is_dir: bool, pp: usize) -> (r: Result<(), String>) {
        if pp > 1 {
            if is_dir {
                return Err("llama: safetensors + pp>1 unsupported".to_owned());
            }
            return Err("llama: pipeline-parallel (pp>1) unsupported".to_owned());
        }
        Ok(())
    }
}

/// An architecture that is loaded from model files on one device only.
#[derive(Debug, Clone, Copy)]
pub struct HfqCarrier {
    pub arch_id: u32,
    pub name: &'static str,
}

impl Carrier for HfqCarrier {
    open spec fn label(&self) -> Seq<char> {
        self.name@
    }

    open spec fn claims(&self, arch_id: u32, is_dir: bool) -> bool {
        !is_dir && arch_id == self.arch_id
    }

    open spec fn refusal(&self, is_dir: bool, pp: usize) -> Option<Seq<char>> {
        if pp > 1 {
            Some(self.name@ + ": pp>1 unsupported via registry"@)
        } else if is_dir {
            Some(self.name@ + ": directory source unsupported"@)
        } else {
            None
        }
    }

    fn name(&self) -> (r: &'static str) {
        self.name
    }

    fn claims_arch_id(&self, arch_id: u32, is_dir: bool) -> (r: bool) {
        !is_dir && arch_id == self.arch_id
    }

    fn accept(&self, is_dir: bool, pp: usize) -> (r: Result<(), String>) {
        if pp > 1 {
            let mut s = self.name.to_owned();
            s.append(": pp>1 unsupported via registry");
            return Err(s);
        }
        if is_dir {
            let mut s = self.name.to_owned();
            s.append(": directory source unsupported");
            return Err(s);
        }
        Ok(())
    }
}

/// Dots OCR by itself, outside the registry.
#[derive(Debug, Clone, Copy, PartialEq, Eq, Structural)]
pub struct DotsOcrCarrier;

impl Carrier for DotsOcrCarrier {
    open spec fn label(&self) -> Seq<char> {
        "dots_ocr"@
    }

    open spec fn claims(&self, arch_id: u32, is_dir: bool) -> bool {
        !is_dir && arch_id == 8
    }

    open spec fn refusal(&self, is_dir: bool, pp: usize) -> Option<Seq<char>> {
        if pp > 1 {
            Some("dots_ocr: pipeline-parallel (pp>1) unsupported"@)
        } else if is_dir {
            Some("dots_ocr: directory source unsupported"@)
        } else {
            None
        }
    }

    fn name(&self) -> (r: &'static str) {
        "dots_ocr"
    }

    fn claims_arch_id(&self, arch_id: u32, is_dir: bool) -> (r: bool) {
        !is_dir && arch_id == 8
    }

    fn accept(&self, is_dir: bool, pp: usize) -> (r: Result<(), String>) {
        if pp > 1 {
            return Err("dots_ocr: pipeline-parallel (pp>1) unsupported".to_owned());
        }
        if is_dir {
            return Err("dots_ocr: directory source unsupported".to_owned());
        }
        Ok(())
    }
}

/// MiniMax, from model files and directories.
#[derive(Debug, Clone, Copy, PartialEq, Eq, Structural)]
pub struct MinimaxCarrier;

impl Carrier for MinimaxCarrier {
    open spec fn label(&self) -> Seq<char> {
        "minimax"@
    }

    open spec fn claims(&self, arch_id: u32, is_dir: bool) -> bool {
        arch_id == 10
    }

    open spec fn refusal(&self, is_dir: bool, pp: usize) -> Option<Seq<char>> {
        if pp > 1 {
            if is_dir {
                Some("minimax: safetensors + pp>1 unsupported"@)
            } else {
                Some("minimax: pipeline-parallel (pp>1) unsupported"@)
            }
        } else {
            None
        }
    }

    fn name(&self) -> (r: &'static str) {
        "minimax"
    }

    fn claims_arch_id(&self, arch_id: u32, is_dir: bool) -> (r: bool) {
        arch_id == 10
    }

    fn accept(&self, is_dir: bool, pp: usize) -> (r: Result<(), String>) {
        if pp > 1 {
            if is_dir {
                return Err("minimax: safetensors + pp>1 unsupported".to_owned());
            }
            return Err("minimax: pipeline-parallel (pp>1) unsupported".to_owned());
        }
        Ok(())
    }
}

/// A carrier of the registry.
#[derive(Debug, Clone, Copy)]
pub enum AnyCarrier {
    Qwen2(Qwen2Carrier),
    Qwen35(Qwen35Carrier),
    Llama(LlamaCarrier),
    Hfq(HfqCarrier),
    Minimax(MinimaxCarrier),
}

impl Carrier for AnyCarrier {
    open spec fn label(&self) -> Seq<char> {
        match self {
            AnyCarrier::Qwen2(c) => c.label(),
            AnyCarrier::Qwen35(c) => c.label(),
            AnyCarrier::Llama(c) => c.label(),
            AnyCarrier::Hfq(c) => c.label(),
            AnyCarrier::Minimax(c) => c.label(),
        }
    }

    open spec fn claims(&self, arch_id: u32, is_dir: bool) -> bool {
        match self {
            AnyCarrier::Qwen2(c) => c.claims(arch_id, is_dir),
            AnyCarrier::Qwen35(c) => c.claims(arch_id, is_dir),
            AnyCarrier::Llama(c) => c.claims(arch_id, is_dir),
            AnyCarrier::Hfq(c) => c.claims(arch_id, is_dir),
            AnyCarrier::Minimax(c) => c.claims(arch_id, is_dir),
        }
    }

    open spec fn refusal(&self, is_dir: bool, pp: usize) -> Option<Seq<char>> {
        match self {
            AnyCarrier::Qwen2(c) => c.refusal(is_dir, pp),
            AnyCarrier::Qwen35(c) => c.refusal(is_dir, pp),
            AnyCarrier::Llama(c) => c.refusal(is_dir, pp),
            AnyCarrier::Hfq(c) => c.refusal(is_dir, pp),
            AnyCarrier::Minimax(c) => c.refusal(is_dir, pp),
        }
    }

    fn name(&self) -> (r: &'static str) {
        match self {
            AnyCarrier::Qwen2(c) => c.name(),
            AnyCarrier::Qwen35(c) => c.name(),
            AnyCarrier::Llama(c) => c.name(),
            AnyCarrier::Hfq(c) => c.name(),
            AnyCarrier::Minimax(c) => c.name(),
        }
    }

    fn claims_arch_id(&self, arch_id: u32, is_dir: bool) -> (r: bool) {
        match self {
            AnyCarrier::Qwen2(c) => c.claims_arch_id(arch_id, is_dir),
            AnyCarrier::Qwen35(c) => c.claims_arch_id(arch_id, is_dir),
            AnyCarrier::Llama(c) => c.claims_arch_id(arch_id, is_dir),
            AnyCarrier::Hfq(c) => c.claims_arch_id(arch_id, is_dir),
            AnyCarrier::Minimax(c) => c.claims_arch_id(arch_id, is_dir),
        }
    }

    fn accept(&self, is_dir: bool, pp: usize) -> (r: Result<(), String>) {
        match self {
            AnyCarrier::Qwen2(c) => c.accept(is_dir, pp),
            AnyCarrier::Qwen35(c) => c.accept(is_dir, pp),
            AnyCarrier::Llama(c) => c.accept(is_dir, pp),
            AnyCarrier::Hfq(c) => c.accept(is_dir, pp),
            AnyCarrier::Minimax(c) => c.accept(is_dir, pp),
        }
    }
}

/// The carriers, in the registry's order.
pub open spec fn registered() -> Seq<AnyCarrier> {
    seq![
        AnyCarrier::Qwen2(Qwen2Carrier),
        AnyCarrier::Qwen35(Qwen35Carrier),
        AnyCarrier::Llama(LlamaCarrier),
        AnyCarrier::Hfq(HfqCarrier { arch_id: 8, name: "dots_ocr" }),
        AnyCarrier::Hfq(HfqCarrier { arch_id: 9, name: "deepseek4" }),
        AnyCarrier::Minimax(MinimaxCarrier),
        AnyCarrier::Hfq(HfqCarrier { arch_id: 11, name: "lfm2moe" }),
        AnyCarrier::Hfq(HfqCarrier { arch_id: 12, name: "cohere2moe" }),
    ]
}

/// The carriers, in the registry's order.
pub fn registry() -> (out: Vec<AnyCarrier>)
    ensures
        out@ == registered(),
{
    let mut out: Vec<AnyCarrier> = Vec::new();
    out.push(AnyCarrier::Qwen2(Qwen2Carrier));
    out.push(AnyCarrier::Qwen35(Qwen35Carrier));
    out.push(AnyCarrier::Llama(LlamaCarrier));
    out.push(AnyCarrier::Hfq(HfqCarrier { arch_id: 8, name: "dots_ocr" }));
    out.push(AnyCarrier::Hfq(HfqCarrier { arch_id: 9, name: "deepseek4" }));
    out.push(AnyCarrier::Minimax(MinimaxCarrier));
    out.push(AnyCarrier::Hfq(HfqCarrier { arch_id: 11, name: "lfm2moe" }));
    out.push(AnyCarrier::Hfq(HfqCarrier { arch_id: 12, name: "cohere2moe" }));
    assert(out@ =~= registered());
    out
}

/// Whether a carrier takes a source: it claims the source's id, if it has one.
pub open spec fn takes(carrier: AnyCarrier, arch_id: Option<u32>, is_dir: bool) -> bool {
    match arch_id {
        Some(id) => carrier.claims(id, is_dir),
        None => false,
    }
}

fn probe(carrier: &AnyCarrier, arch_id: Option<u32>, is_dir: bool) -> (r: bool)
    ensures
        r == takes(*carrier, arch_id, is_dir),
{
    match arch_id {
        Some(id) => carrier.claims_arch_id(id, is_dir),
        None => false,
    }
}

/// Whether the first carrier from `from` on that takes a source is at `i`.
pub open spec fn first_taking(
    carriers: Seq<AnyCarrier>,
    arch_id: Option<u32>,
    is_dir: bool,
    from: int,
    i: int,
) -> bool {
    &&& from <= i < carriers.len()
    &&& takes(carriers[i], arch_id, is_dir)
    &&& forall|j: int| from <= j < i ==> !takes(#[trigger] carriers[j], arch_id, is_dir)
}

fn next_taking(
    carriers: &Vec<AnyCarrier>,
    arch_id: Option<u32>,
    is_dir: bool,
    from: usize,
) -> (r: Option<usize>)
    requires
        from <= carriers@.len(),
    ensures
        match r {
            Some(i) => first_taking(carriers@, arch_id, is_dir, from as int, i as int),
            None => forall|j: int|
                from <= j < carriers@.len() ==> !takes(#[trigger] carriers@[j], arch_id, is_dir),
        },
{
    let mut i: usize = from;
    while i < carriers.len()
        invariant
            from <= i <= carriers@.len(),
            forall|j: int| from <= j < i ==> !takes(#[trigger] carriers@[j], arch_id, is_dir),
        decreases carriers.len() - i,
    {
        if probe(&carriers[i], arch_id, is_dir) {
            return Some(i);
        }
        i = i + 1;
    }
    None
}

/// The error's text where two carriers claim a source.
pub open spec fn ambiguous(source: Seq<char>, a: Seq<char>, b: Seq<char>) -> Seq<char> {
    "ambiguous carrier dispatch for "@ + source + ": '"@ + a + "' and '"@ + b
        + "' both claim it"@
}

/// Picks the carrier of a source: the one that takes it. None and several are
/// errors, so that an overlap fails loudly.
pub fn dispatch(
    carriers: &Vec<AnyCarrier>,
    arch_id: Option<u32>,
    is_dir: bool,
    source: &str,
) -> (r: Result<usize, String>)
    ensures
        match r {
            Ok(i) => first_taking(carriers@, arch_id, is_dir, 0, i as int) && forall|j: int|
                i < j < carriers@.len() ==> !takes(#[trigger] carriers@[j], arch_id, is_dir),
            Err(e) => (e@ == "no carrier for "@ + source@ && forall|j: int|
                0 <= j < carriers@.len() ==> !takes(#[trigger] carriers@[j], arch_id, is_dir)) || (
            exists|i: int, j: int| #[trigger]
                first_taking(carriers@, arch_id, is_dir, 0, i) && #[trigger] first_taking(
                    carriers@,
                    arch_id,
                    is_dir,
                    i + 1,
                    j,
                ) && e@ == ambiguous(source@, carriers@[i].label(), carriers@[j].label())),
        },
{
    let first: usize = match next_taking(carriers, arch_id, is_dir, 0) {
        Some(i) => i,
        None => {
            let mut s = "no carrier for ".to_owned();
            s.append(source);
            return Err(s);
        },
    };
    let n: usize = carriers.len();
    assert(first < n);
    match next_taking(carriers, arch_id, is_dir, first + 1) {
        Some(other) => {
            let mut s = "ambiguous carrier dispatch for ".to_owned();
            s.append(source);
            s.append(": '");
            s.append(carriers[first].name());
            s.append("' and '");
            s.append(carriers[other].name());
            s.append("' both claim it");
            assert(first_taking(carriers@, arch_id, is_dir, 0, first as int) && first_taking(
                carriers@,
                arch_id,
                is_dir,
                first + 1,
                other as int,
            ));
            Err(s)
        },
        None => Ok(first),
    }
}

/// At most one registered carrier claims an architecture id, whatever the id
/// and the kind of source.
pub proof fn carriers_are_disjoint(arch_id: u32, is_dir: bool, i: int, j: int)
    requires
        0 <= i < registered().len(),
        0 <= j < registered().len(),
        registered()[i].claims(arch_id, is_dir),
        registered()[j].claims(arch_id, is_dir),
    ensures
        i == j,
{
}

/// The ids from two to four are claimed by no registered carrier.
pub proof fn unassigned_ids_match_nothing(arch_id: u32, is_dir: bool, i: int)
    requires
        2 <= arch_id <= 4,
        0 <= i < registered().len(),
    ensures
        !registered()[i].claims(arch_id, is_dir),
{
}

/// Only one carrier splits a model over several devices, and only from a model file.
pub proof fn only_qwen35_splits(is_dir: bool, pp: usize, i: int)
    requires
        pp > 1,
        0 <= i < registered().len(),
        registered()[i].refusal(is_dir, pp) is None,
    ensures
        registered()[i] is Qwen35,
        !is_dir,
{
}

/// What a carrier claims it loads on one device; on several devices everything
/// is refused but a Qwen3.5 model file.
pub proof fn claimed_sources_load(arch_id: u32, is_dir: bool, pp: usize, i: int)
    requires
        0 <= i < registered().len(),
        registered()[i].claims(arch_id, is_dir),
    ensures
        pp <= 1 ==> registered()[i].refusal(is_dir, pp) is None,
        pp > 1 ==> (registered()[i].refusal(is_dir, pp) is None <==> !is_dir && (arch_id == 5
            || arch_id == 6)),
{
}

/// Every architecture has the carrier of its name: the plain and Qwen3.5 ids and
/// MiniMax's from files and directories, the others from files alone; and no
/// other id has one.
pub proof fn ids_have_their_carriers(arch_id: u32, is_dir: bool)
    ensures
        (exists|i: int|
            0 <= i < registered().len() && (#[trigger] registered()[i]).claims(arch_id, is_dir))
            <==> arch_id == 0 || arch_id == 1 || arch_id == 5 || arch_id == 6 || arch_id == 10 || (
        !is_dir && 7 <= arch_id <= 12),
        forall|i: int|
            0 <= i < registered().len() && (#[trigger] registered()[i]).claims(arch_id, is_dir)
                ==> registered()[i].label() == (if arch_id <= 1 {
                "llama"@
            } else if arch_id <= 6 {
                "qwen35"@
            } else if arch_id == 7 {
                "qwen2"@
            } else if arch_id == 8 {
                "dots_ocr"@
            } else if arch_id == 9 {
                "deepseek4"@
            } else if arch_id == 10 {
                "minimax"@
            } else if arch_id == 11 {
                "lfm2moe"@
            } else {
                "cohere2moe"@
            }),
{
    let all = registered();
    assert(all.len() == 8);
    if arch_id <= 1 {
        assert(all[2].claims(arch_id, is_dir));
    } else if arch_id == 5 || arch_id == 6 {
        assert(all[1].claims(arch_id, is_dir));
    } else if arch_id == 10 {
        assert(all[5].claims(arch_id, is_dir));
    } else if !is_dir && arch_id == 7 {
        assert(all[0].claims(arch_id, is_dir));
    } else if !is_dir && arch_id == 8 {
        assert(all[3].claims(arch_id, is_dir));
    } else if !is_dir && arch_id == 9 {
        assert(all[4].claims(arch_id, is_dir));
    } else if !is_dir && arch_id == 11 {
        assert(all[6].claims(arch_id, is_dir));
    } else if !is_dir && arch_id == 12 {
        assert(all[7].claims(arch_id, is_dir));
    }
}

} // verus!
