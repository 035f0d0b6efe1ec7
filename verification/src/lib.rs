//! Text formatting, topic routing and preview streaming for a Telegram bot.
//!
//! The library decides what is sent and where to; who calls it talks to the Bot
//! API and hands back what came of it.

pub mod channel;
pub mod config;
pub mod decimal;
pub mod delivery;
pub mod filter;
pub mod html;
pub mod message_laws;
pub mod narration;
pub mod protocol;
pub mod rendering_laws;
pub mod stream;
pub mod text;
pub mod topic;

pub use channel::ChannelError;
pub use config::{TelegramChannelConfig, TelegramConfig, TopicRoute};
pub use filter::{escape_html, format_for_telegram};
pub use protocol::{ChatMember, TelegramClientError};
pub use stream::{PreviewCoalescer, PreviewSink, TelegramPreview};
