//! English text to speech, with the contract of every function proved.
//!
//! Three parts share the crate. The text frontend turns a sentence into phonemes: `tokenize`,
//! `tagger`, `lexicon` with its helpers, and `g2p`, which joins them. The server's rules decide
//! what is refused, what is spoken and what becomes of a narration run: `api`, `batch`,
//! `stream`, `jobs` and `settings`. The tensor plans say where elements lie and which launches
//! cover them, for arithmetic that is done elsewhere: `conv`, `upconv`, `stft`, `tensor`,
//! `block`, `launch`, `elementwise` and `attention`. Files that end in `_laws` state what holds
//! across functions.

pub mod affix;
pub mod affix_laws;
pub mod api;
pub mod attention;
pub mod base64;
pub mod batch;
pub mod batch_laws;
pub mod block;
pub mod block_cache;
pub mod context_laws;
pub mod conv;
pub mod derive;
pub mod derive_laws;
pub mod digits;
pub mod elementwise;
pub mod figure_laws;
pub mod g2p;
pub mod g2p_laws;
pub mod gate;
pub mod infix_laws;
pub mod jobs;
pub mod jobs_laws;
pub mod launch;
pub mod lexicon;
pub mod lexicon_laws;
pub mod matmul;
pub mod mtoken;
pub mod mtoken_laws;
pub mod murmur;
pub mod num2words;
pub mod number_laws;
pub mod numbers;
pub mod pattern;
pub mod plan_laws;
pub mod reading_laws;
pub mod resolve;
pub mod resolve_laws;
pub mod retokenize;
pub mod retokenize_laws;
pub mod server_laws;
pub mod settings;
pub mod shape_laws;
pub mod skinny;
pub mod space;
pub mod stats;
pub mod stft;
pub mod stream;
pub mod stress;
pub mod stress_laws;
pub mod tagger;
pub mod tensor;
pub mod text;
pub mod text_laws;
pub mod token_laws;
pub mod tokenize;
pub mod tokenize_laws;
pub mod unicode;
pub mod upconv;
pub mod vocab;
pub mod word_laws;
pub mod words;
