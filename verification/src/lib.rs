pub mod chunked_download;
pub mod clock;
pub mod done_percent;
pub mod double;
pub mod download;
pub mod download_manager;
pub mod music_download_status;
pub mod play_error;
pub mod player_command;
pub mod player_laws;
pub mod player_state;
pub mod progress;
pub mod rebuild;
pub mod recovery;
pub mod status_table;
pub mod text;
pub mod tick_laws;
pub mod update;
pub mod video;
pub mod view_laws;
pub mod ytdlp;
