//! Bitstream syntax, side information, entropy decoding and container logic of the AVS3-P3
//! (Audio Vivid) codec.
//!
//! Everything here works on bytes and integers. Sample values that later stages treat as binary32
//! numbers are carried as their bit patterns; the arithmetic on them lives outside this library.

pub mod bit_writing;
pub mod bitreader;
pub mod bwe;
pub mod config;
pub mod core_side;
pub mod engine;
pub mod entropy;
pub mod error;
pub mod fd_lsf;
pub mod fd_lsf_tables;
pub mod float_bits;
pub mod frame;
pub mod frame_laws;
pub mod frame_side_laws;
pub mod ga;
pub mod ga_frame;
pub mod ga_hoa_pcm;
pub mod ga_mono;
pub mod ga_stereo;
pub mod ga_multichannel_pcm;
pub mod ga_pcm_plan;
pub mod group;
pub mod hoa_allocation;
pub mod hoa_allocation_laws;
pub mod hoa_downmix_laws;
pub mod hoa_frame;
pub mod hoa_side;
pub mod hoa_syntax;
pub mod hoa_syntax_laws;
pub mod hoa_synthesis;
pub mod imdct_synthesis;
pub mod isobmff;
pub mod isobmff_box_laws;
pub mod isobmff_boxes;
pub mod isobmff_laws;
pub mod lc_pipeline;
pub mod lossless_bitstream;
pub mod order_laws;
pub mod plan_laws;
pub mod qc;
pub mod side_laws;
pub mod stereo_laws;
pub mod synthesis_plan;
pub mod text;
