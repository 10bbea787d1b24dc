//! The pinyin engine's lexicon and segmentation: syllables, fuzzy
//! spellings, runtime words and the split of an input into syllables.
pub mod fuzzy;
pub mod segment;
pub mod lexicon;
