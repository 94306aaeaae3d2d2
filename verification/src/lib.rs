pub mod codec;
pub mod model;
pub mod storage;
pub mod text;
pub mod settings;
pub mod seqs;
pub mod history;
pub mod sensitive;
pub mod order;
pub mod args;
pub mod preview;
pub mod snippets;
pub mod capture;
pub mod poll;
pub mod store;
pub mod search;
pub mod menu;
pub mod rich;
