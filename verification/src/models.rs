pub mod client;
pub mod flags;
pub mod publish_queue_item;
pub mod sub_info;
pub mod topic;
pub mod topicfilter;
