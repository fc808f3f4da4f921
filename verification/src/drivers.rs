//! Backend drivers and the chunk streams they produce.
//!
//! Each backend kind answers a chat request with a finite sequence of
//! chunks whose last element, and only that element, carries `done`. The
//! current drivers are wiring stubs: each greets with a fixed text and
//! terminates, which is enough to exercise the whole lifecycle and router
//! machinery end to end.

use vstd::prelude::*;

use crate::errors::RouterError;
use crate::registry::Backend;
use crate::registry::ModelSpec;

verus! {

/// One chat request.
#[derive(Debug)]
pub struct ChatRequest {
    pub prompt: String,
}

impl View for ChatRequest {
    type V = Seq<char>;

    open spec fn view(&self) -> Seq<char> {
        self.prompt@
    }
}

/// One increment of streamed model output.
#[derive(Debug)]
pub struct ChatChunk {
    pub text: String,
    /// A chunk with `done` is always the terminal chunk of its stream.
    pub done: bool,
}

/// Mathematical image of a `ChatChunk`.
pub ghost struct ChunkModel {
    pub text: Seq<char>,
    pub done: bool,
}

impl View for ChatChunk {
    type V = ChunkModel;

    open spec fn view(&self) -> ChunkModel {
        ChunkModel { text: self.text@, done: self.done }
    }
}

/// Only the last chunk of a well-formed sequence is terminal.
pub open spec fn chunks_wf(s: Seq<ChunkModel>) -> bool {
    forall|i: int| 0 <= i < s.len() && (#[trigger] s[i]).done ==> i == s.len() - 1
}

/// A finished stream: non-empty and closed by a terminal chunk.
pub open spec fn chunks_terminated(s: Seq<ChunkModel>) -> bool {
    s.len() > 0 && s[s.len() - 1].done
}

/// The fixed greeting each stub backend streams before terminating.
pub open spec fn stub_text(b: Backend) -> Seq<char> {
    match b {
        Backend::Candle => "hello from candle stub"@,
        Backend::LlamaCpp => "hello from llamacpp stub"@,
        Backend::Vllm => "hello from vllm stub"@,
    }
}

/// The whole chunk sequence a stub backend answers with: one greeting
/// chunk, then an empty terminal chunk.
pub open spec fn stub_chunks(b: Backend) -> Seq<ChunkModel> {
    seq![
        ChunkModel { text: stub_text(b), done: false },
        ChunkModel { text: ""@, done: true },
    ]
}

/// In-process local-inference backend.
#[derive(Debug)]
pub struct CandleDriver;

impl CandleDriver {
    pub fn new() -> (d: CandleDriver) {
        CandleDriver
    }
}

/// Remote backend speaking the llama.cpp server protocol.
#[derive(Debug)]
pub struct LlamaCppDriver {
    pub endpoint: String,
}

impl LlamaCppDriver {
    pub fn new(endpoint: String) -> (d: LlamaCppDriver)
        ensures
            d.endpoint@ == endpoint@,
    {
        LlamaCppDriver { endpoint }
    }
}

/// Remote backend speaking the vLLM server protocol.
#[derive(Debug)]
pub struct VllmDriver {
    pub endpoint: String,
}

impl VllmDriver {
    pub fn new(endpoint: String) -> (d: VllmDriver)
        ensures
            d.endpoint@ == endpoint@,
    {
        VllmDriver { endpoint }
    }
}

/// The uniform driver capability, one variant per backend kind.
#[derive(Debug)]
pub enum AnyDriver {
    Candle(CandleDriver),
    LlamaCpp(LlamaCppDriver),
    Vllm(VllmDriver),
}

impl AnyDriver {
    /// Which backend kind this driver serves.
    pub open spec fn kind(&self) -> Backend {
        match self {
            AnyDriver::Candle(_) => Backend::Candle,
            AnyDriver::LlamaCpp(_) => Backend::LlamaCpp,
            AnyDriver::Vllm(_) => Backend::Vllm,
        }
    }

    /// Pick the driver implementation for a backend kind, as the registry
    /// resolution names it; remote kinds take their endpoint address.
    pub fn for_backend(b: Backend, endpoint: String) -> (d: AnyDriver)
        ensures
            d.kind() == b,
    {
        match b {
            Backend::Candle => AnyDriver::Candle(CandleDriver::new()),
            Backend::LlamaCpp => AnyDriver::LlamaCpp(LlamaCppDriver::new(endpoint)),
            Backend::Vllm => AnyDriver::Vllm(VllmDriver::new(endpoint)),
        }
    }

    /// Bring the backend to a state able to serve `spec`. Idempotent; the
    /// stubs always succeed.
    pub fn ensure_loaded(&self, spec: &ModelSpec) -> (r: Result<(), RouterError>)
        ensures
            r is Ok,
    {
        let _ = spec;
        Ok(())
    }

    /// Release backend resources for `name`. Best-effort and idempotent:
    /// it never fails the caller.
    pub fn unload(&self, name: &String) -> (r: Result<(), RouterError>)
        ensures
            r is Ok,
    {
        let _ = name;
        Ok(())
    }

    /// Whether the backend can currently serve requests.
    pub fn health(&self) -> (r: Result<(), RouterError>)
        ensures
            r is Ok,
    {
        Ok(())
    }

    /// The finite chunk sequence for one chat request: the stub greeting,
    /// then the terminal chunk.
    pub fn chat_chunks(&self, req: &ChatRequest) -> (v: Vec<ChatChunk>)
        ensures
            v@.map_values(|c: ChatChunk| c@) == stub_chunks(self.kind()),
            chunks_wf(v@.map_values(|c: ChatChunk| c@)),
            chunks_terminated(v@.map_values(|c: ChatChunk| c@)),
    {
        let _ = req;
        let text = match self {
            AnyDriver::Candle(_) => "hello from candle stub",
            AnyDriver::LlamaCpp(_) => "hello from llamacpp stub",
            AnyDriver::Vllm(_) => "hello from vllm stub",
        };
        let mut v: Vec<ChatChunk> = Vec::new();
        v.push(ChatChunk { text: String::from_str(text), done: false });
        v.push(ChatChunk { text: String::new(), done: true });
        proof {
            assert(text@ == stub_text(self.kind())) by {
                match self {
                    AnyDriver::Candle(_) => {},
                    AnyDriver::LlamaCpp(_) => {},
                    AnyDriver::Vllm(_) => {},
                }
            }
            reveal_strlit("");
            assert(""@ =~= Seq::<char>::empty());
            assert(v@.len() == 2);
            assert(v@[0]@ == (ChunkModel { text: text@, done: false }));
            assert(v@[1]@ == (ChunkModel { text: ""@, done: true }));
            assert(v@.map_values(|c: ChatChunk| c@) =~~= stub_chunks(self.kind()));
        }
        v
    }
}

} // verus!
