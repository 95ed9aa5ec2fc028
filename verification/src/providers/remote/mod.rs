pub mod openrouter;
