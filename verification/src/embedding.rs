//! The closed tables of the embedder: devices, execution providers and
//! model names.

use vstd::prelude::*;
use crate::text::same_text;

verus! {

/// The lower-case form of a text.
pub uninterp spec fn lowercase_of(text: Seq<char>) -> Seq<char>;

/// Turns a text into lower case. Trusted: stands for `str::to_lowercase`,
/// whose result depends on the text alone.
#[verifier::external_body]
pub(crate) fn lowercase(text: &str) -> (lower: String)
    ensures
        lower@ == lowercase_of(text@),
{
    text.to_lowercase()
}

/// Where the models run.
#[derive(Clone, Copy, Debug, PartialEq, Eq, Structural)]
pub enum Device {
    Auto,
    Cpu,
    Cuda,
    Metal,
}

/// What carries out the models' arithmetic.
#[derive(Clone, Copy, Debug, PartialEq, Eq, Structural)]
pub enum ExecutionProvider {
    Cuda,
    CoreMl,
    Cpu,
}

/// The embedding models that are known by name.
#[derive(Clone, Copy, Debug, PartialEq, Eq, Structural)]
pub enum EmbeddingModelName {
    NomicEmbedTextV15,
    AllMiniLML6V2,
    BGEBaseENV15,
    BGESmallENV15,
    MultilingualE5Large,
}

/// The re-ranking models that are known by name.
#[derive(Clone, Copy, Debug, PartialEq, Eq, Structural)]
pub enum RerankerModelName {
    BGERerankerBase,
}

/// The width of the vectors of a model whose width could not be measured.
pub const DEFAULT_DIMENSION: usize = 768;

/// The device that a name selects, whatever its case; every name that is
/// not `cpu`, `cuda` or `metal` selects `auto`.
pub open spec fn device_of(name: Seq<char>) -> Device {
    if lowercase_of(name) == "cuda"@ {
        Device::Cuda
    } else if lowercase_of(name) == "metal"@ {
        Device::Metal
    } else if lowercase_of(name) == "cpu"@ {
        Device::Cpu
    } else {
        Device::Auto
    }
}

/// Computes `device_of`.
pub fn device(name: &str) -> (device: Device)
    ensures
        device == device_of(name@),
{
    let lower = lowercase(name);
    if same_text(lower.as_str(), "cuda") {
        Device::Cuda
    } else if same_text(lower.as_str(), "metal") {
        Device::Metal
    } else if same_text(lower.as_str(), "cpu") {
        Device::Cpu
    } else {
        Device::Auto
    }
}

/// The providers to try on a device, in order, given which accelerators
/// the build supports: the accelerator that the device names, or with
/// `auto` every one that is supported, and the processor last. A device
/// whose accelerator is not supported runs on the processor.
pub open spec fn providers_of(device: Device, cuda: bool, metal: bool) -> Seq<ExecutionProvider> {
    match device {
        Device::Cuda => if cuda {
            seq![ExecutionProvider::Cuda, ExecutionProvider::Cpu]
        } else {
            seq![ExecutionProvider::Cpu]
        },
        Device::Metal => if metal {
            seq![ExecutionProvider::CoreMl, ExecutionProvider::Cpu]
        } else {
            seq![ExecutionProvider::Cpu]
        },
        Device::Cpu => seq![ExecutionProvider::Cpu],
        Device::Auto => (if cuda {
            seq![ExecutionProvider::Cuda]
        } else {
            Seq::empty()
        }) + (if metal {
            seq![ExecutionProvider::CoreMl]
        } else {
            Seq::empty()
        }) + seq![ExecutionProvider::Cpu],
    }
}

/// Computes `providers_of`.
pub fn execution_providers(device: Device, cuda: bool, metal: bool) -> (providers: Vec<
    ExecutionProvider,
>)
    ensures
        providers@ == providers_of(device, cuda, metal),
        providers@.len() >= 1,
        providers@.last() == ExecutionProvider::Cpu,
{
    let mut providers: Vec<ExecutionProvider> = Vec::new();
    match device {
        Device::Cuda => {
            if cuda {
                providers.push(ExecutionProvider::Cuda);
            }
        },
        Device::Metal => {
            if metal {
                providers.push(ExecutionProvider::CoreMl);
            }
        },
        Device::Cpu => {},
        Device::Auto => {
            if cuda {
                providers.push(ExecutionProvider::Cuda);
            }
            if metal {
                providers.push(ExecutionProvider::CoreMl);
            }
        },
    }
    providers.push(ExecutionProvider::Cpu);
    assert(providers@ =~= providers_of(device, cuda, metal));
    providers
}

/// Whether the device's own accelerator is missing from the build, so that
/// the models run on the processor instead.
pub fn degrades_to_cpu(device: Device, cuda: bool, metal: bool) -> (degraded: bool)
    ensures
        degraded == ((device == Device::Cuda && !cuda) || (device == Device::Metal && !metal)),
{
    match device {
        Device::Cuda => !cuda,
        Device::Metal => !metal,
        _ => false,
    }
}

/// The embedding model that a name stands for, whatever its case, if it is
/// known.
pub open spec fn known_embedding_model(name: Seq<char>) -> Option<EmbeddingModelName> {
    if lowercase_of(name) == "nomic-embed-text-v1.5"@ {
        Some(EmbeddingModelName::NomicEmbedTextV15)
    } else if lowercase_of(name) == "all-minilm-l6-v2"@ {
        Some(EmbeddingModelName::AllMiniLML6V2)
    } else if lowercase_of(name) == "bge-base-en-v1.5"@ {
        Some(EmbeddingModelName::BGEBaseENV15)
    } else if lowercase_of(name) == "bge-small-en-v1.5"@ {
        Some(EmbeddingModelName::BGESmallENV15)
    } else if lowercase_of(name) == "multilingual-e5-large"@ {
        Some(EmbeddingModelName::MultilingualE5Large)
    } else {
        None
    }
}

/// Looks an embedding model up by name.
pub fn find_embedding_model(name: &str) -> (model: Option<EmbeddingModelName>)
    ensures
        model == known_embedding_model(name@),
{
    let lower = lowercase(name);
    if same_text(lower.as_str(), "nomic-embed-text-v1.5") {
        Some(EmbeddingModelName::NomicEmbedTextV15)
    } else if same_text(lower.as_str(), "all-minilm-l6-v2") {
        Some(EmbeddingModelName::AllMiniLML6V2)
    } else if same_text(lower.as_str(), "bge-base-en-v1.5") {
        Some(EmbeddingModelName::BGEBaseENV15)
    } else if same_text(lower.as_str(), "bge-small-en-v1.5") {
        Some(EmbeddingModelName::BGESmallENV15)
    } else if same_text(lower.as_str(), "multilingual-e5-large") {
        Some(EmbeddingModelName::MultilingualE5Large)
    } else {
        None
    }
}

/// The embedding model to load for a name: the one it stands for, and the
/// default, `nomic-embed-text-v1.5`, for a name that is not known.
pub fn embedding_model(name: &str) -> (model: EmbeddingModelName)
    ensures
        model == match known_embedding_model(name@) {
            Some(model) => model,
            None => EmbeddingModelName::NomicEmbedTextV15,
        },
{
    match find_embedding_model(name) {
        Some(model) => model,
        None => EmbeddingModelName::NomicEmbedTextV15,
    }
}

/// Whether a name stands for a re-ranking model that is known.
pub fn reranker_known(name: &str) -> (known: bool)
    ensures
        known == (lowercase_of(name@) == "bge-reranker-base"@),
{
    same_text(lowercase(name).as_str(), "bge-reranker-base")
}

/// The re-ranking model to load for a name: the one known model, whatever
/// the name.
pub fn reranker_model(name: &str) -> (model: RerankerModelName)
    ensures
        model == RerankerModelName::BGERerankerBase,
{
    RerankerModelName::BGERerankerBase
}

/// The width of the vectors of a model: the width of the vector that a
/// warm-up text gave, and the default where the warm-up gave none.
pub fn dimension(probed: Option<usize>) -> (dim: usize)
    ensures
        dim == match probed {
            Some(width) => width,
            None => DEFAULT_DIMENSION,
        },
{
    match probed {
        Some(width) => width,
        None => DEFAULT_DIMENSION,
    }
}

} // verus!
