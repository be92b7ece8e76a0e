//! A terminal music browser's verified core: a library index derived from
//! file tags, a three-level pane navigation engine, a binary cache codec,
//! and a render projection for three boxed columns.
use vstd::prelude::*;

mod codec;
mod config;
mod index;
mod nav;
mod order;
mod pane;
mod render;
mod scan;
mod song;

pub use song::Song;
pub use song::SongData;
pub use song::songs_view;
pub use song::LibraryError;

pub use order::lex_lt;
pub use order::views_of;
pub use order::strictly_sorted;
pub use order::lemma_strictly_sorted_distinct;
pub use order::lemma_lex_total;
pub use order::lemma_lex_transitive;
pub use order::str_lt;
pub use order::str_eq;
pub use order::sorted_contains;
pub use order::insert_sorted;

pub use index::Album;
pub use index::Artist;
pub use index::album_titles;
pub use index::artist_names;
pub use index::album_has_artist;
pub use index::album_wf;
pub use index::albums_wf;
pub use index::album_complete;
pub use index::album_artists_exact;
pub use index::album_exact;
pub use index::artist_wf;
pub use index::artist_complete;
pub use index::artist_album_titles;
pub use index::album_titles_for_artist;
pub use index::init_albums;
pub use index::init_artists;

pub use codec::encodable_str;
pub use codec::encodable_song;
pub use codec::encodable;
pub use codec::enc_str;
pub use codec::enc_duration;
pub use codec::enc_song;
pub use codec::enc_song_list;
pub use codec::encode_songs;
pub use codec::starts_with_bytes;
pub use codec::save_cache;
pub use codec::load_cache;

pub use config::Config;
pub use config::leading_marks;
pub use config::wants_home;
pub use config::expand_home;

pub use pane::FocusedPane;
pub use pane::PaneType;
pub use pane::Pane;
pub use pane::size_ok;
pub use pane::max_reference;
pub use pane::selection_opt;
pub use pane::menu_geom;
pub use pane::track_geom;
pub use pane::is_first_album_match;
pub use pane::no_album_match;
pub use pane::track_options;
pub use pane::level3_ok;
pub use pane::level2_ok;
pub use pane::level1_ok;
pub use pane::chain_ok;
pub use pane::fresh2;
pub use pane::fresh3;
pub use pane::down_pos;
pub use pane::up_pos;
pub use pane::clamp_pos;
pub use pane::refitted;
pub use pane::resized3;
pub use pane::same_frame;
pub use pane::rebuilt_child;
pub use pane::moved_down;
pub use pane::moved_up;
pub use pane::lemma_down_up_restores;
pub use pane::lemma_move_down_keeps_chain;
pub use pane::lemma_move_up_keeps_chain;
pub use pane::lemma_child_move_keeps_chain;
pub use pane::lemma_resize_keeps_chain;

pub use nav::UiState;
pub use nav::move_right;
pub use nav::move_left;
pub use nav::chain_step;
pub use nav::move_down;
pub use nav::move_up;
pub use nav::can_select;
pub use nav::spec_selected;
pub use nav::get_selected;
pub use nav::is_first_song_match;
pub use nav::no_song_match;
pub use nav::resolve_song;

pub use render::DrawCmd;
pub use render::repeat_char;
pub use render::box_row_text;
pub use render::fit_spec;
pub use render::menu_budget;
pub use render::album_budget;
pub use render::menu_row_source;
pub use render::shown_len;
pub use render::menu_cmds_ok;
pub use render::album_cmds_ok;
pub use render::pane_cmds_ok;
pub use render::chain_cmds_ok;
pub use render::drawable;
pub use render::lemma_chain_drawable;
pub use render::draw_box;
pub use render::clear_area;
pub use render::fit_to_width;

pub use scan::seq_ends_with;
pub use scan::is_audio_path_spec;
pub use scan::str_ends_with;
pub use scan::is_audio_path;
pub use scan::chunks_concat;
pub use scan::partition_chunks;
pub use scan::song_from_tags;

verus! {

} // verus!
