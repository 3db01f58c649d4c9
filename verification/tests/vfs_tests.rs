use personal_site::vfs::{FileContent, VfsError, VfsNodeType, VirtualFilesystem};
#[test]
fn test_vfs_initialization() {
    let blog_posts = vec!["post1".to_string(), "post2".to_string()];
    let vfs = VirtualFilesystem::new(blog_posts);

    // Test root directory exists
    let root = vfs.get_root();
    let root_node = vfs.get_node(root).expect("Root node should exist");
    assert!(matches!(root_node.node_type, VfsNodeType::Directory));

    // Test basic system directories exist
    assert!(vfs.resolve_path(root, "/blog").is_ok());
    assert!(vfs.resolve_path(root, "/cv").is_ok());

    // Test system files exist
    assert!(vfs.resolve_path(root, "/mines.sh").is_ok());
    assert!(vfs.resolve_path(root, "/thanks.txt").is_ok());
    assert!(vfs.resolve_path(root, "/.zshrc").is_ok());
    assert!(vfs.resolve_path(root, "/nav.rs").is_ok());
}

#[test]
fn test_path_resolution() {
    let blog_posts = vec!["example-post".to_string()];
    let vfs = VirtualFilesystem::new(blog_posts);
    let root = vfs.get_root();

    // Test absolute paths
    assert!(vfs.resolve_path(root, "/").is_ok());
    assert!(vfs.resolve_path(root, "/blog").is_ok());
    assert!(vfs.resolve_path(root, "/blog/example-post").is_ok());

    // Test relative paths from root
    assert!(vfs.resolve_path(root, "blog").is_ok());
    assert!(vfs.resolve_path(root, "./blog").is_ok());

    // Test parent directory navigation
    let blog_id = vfs.resolve_path(root, "/blog").unwrap();
    let back_to_root = vfs.resolve_path(blog_id, "..").unwrap();
    assert_eq!(back_to_root, root);

    // Test invalid paths
    assert!(vfs.resolve_path(root, "/nonexistent").is_err());
    assert!(vfs.resolve_path(root, "/blog/nonexistent").is_err());
}

#[test]
fn test_file_reading() {
    let blog_posts = vec![];
    let vfs = VirtualFilesystem::new(blog_posts);
    let root = vfs.get_root();

    // Test reading static files
    let mines_id = vfs.resolve_path(root, "/mines.sh").unwrap();
    let content = vfs.read_file(mines_id).unwrap();
    assert!(content.contains("mines"));

    let thanks_id = vfs.resolve_path(root, "/thanks.txt").unwrap();
    let content = vfs.read_file(thanks_id).unwrap();
    assert!(content.contains("Thank you"));

    // Test reading nav file (virtual content)
    let nav_id = vfs.resolve_path(root, "/nav.rs").unwrap();
    let content = vfs.read_file(nav_id).unwrap();
    assert!(content.contains("use_navigate"));
    assert!(content.contains("\"/\""));
}

#[test]
fn test_directory_listing() {
    let blog_posts = vec!["post1".to_string(), "post2".to_string()];
    let vfs = VirtualFilesystem::new(blog_posts);
    let root = vfs.get_root();

    // Test root directory listing
    let entries = vfs.list_directory(root).unwrap();
    let names: Vec<&str> = entries.iter().map(|e| e.name.as_str()).collect();

    assert!(names.contains(&"blog"));
    assert!(names.contains(&"cv"));
    assert!(names.contains(&"mines.sh"));
    assert!(names.contains(&"thanks.txt"));
    assert!(names.contains(&".zshrc"));
    assert!(names.contains(&"nav.rs"));

    // Test blog directory listing
    let blog_id = vfs.resolve_path(root, "/blog").unwrap();
    let blog_entries = vfs.list_directory(blog_id).unwrap();
    let blog_names: Vec<&str> = blog_entries.iter().map(|e| e.name.as_str()).collect();

    assert!(blog_names.contains(&"post1"));
    assert!(blog_names.contains(&"post2"));
    assert!(blog_names.contains(&"nav.rs"));
}

#[test]
fn test_user_file_creation() {
    let blog_posts = vec![];
    let mut vfs = VirtualFilesystem::new(blog_posts);
    let root = vfs.get_root();

    // Create a user file
    let file_id = vfs
        .create_file(
            root,
            "test.txt",
            FileContent::Dynamic("Hello, world!".to_string()),
        )
        .unwrap();

    // Verify it was created
    let content = vfs.read_file(file_id).unwrap();
    assert_eq!(content, "Hello, world!");

    // Verify it appears in directory listing
    let entries = vfs.list_directory(root).unwrap();
    let names: Vec<&str> = entries.iter().map(|e| e.name.as_str()).collect();
    assert!(names.contains(&"test.txt"));
}

#[test]
fn test_user_directory_creation() {
    let blog_posts = vec![];
    let mut vfs = VirtualFilesystem::new(blog_posts);
    let root = vfs.get_root();

    // Create a user directory
    let dir_id = vfs.create_directory(root, "mydir").unwrap();

    // Verify it was created and is a directory
    let node = vfs.get_node(dir_id).unwrap();
    assert!(matches!(node.node_type, VfsNodeType::Directory));

    // Verify it appears in directory listing
    let entries = vfs.list_directory(root).unwrap();
    let names: Vec<&str> = entries.iter().map(|e| e.name.as_str()).collect();
    assert!(names.contains(&"mydir"));

    // Create a file inside the directory
    vfs.create_file(
        dir_id,
        "nested.txt",
        FileContent::Dynamic("nested content".to_string()),
    )
    .unwrap();

    // Verify the nested file can be accessed
    let nested_id = vfs.resolve_path(root, "/mydir/nested.txt").unwrap();
    let content = vfs.read_file(nested_id).unwrap();
    assert_eq!(content, "nested content");
}

#[test]
fn test_system_file_immutability() {
    let blog_posts = vec![];
    let mut vfs = VirtualFilesystem::new(blog_posts);
    let root = vfs.get_root();

    // We can now create files in system directories (they have write permission)
    let blog_id = vfs.resolve_path(root, "/blog").unwrap();
    let result = vfs.create_file(
        blog_id,
        "user_content.txt",
        FileContent::Dynamic("user created content".to_string()),
    );

    // File creation should succeed
    assert!(result.is_ok());
    let _file_id = result.unwrap();

    // But we still can't delete system directories
    let delete_result = vfs.delete_node(blog_id);
    assert!(delete_result.is_err());
    assert!(matches!(
        delete_result.unwrap_err(),
        VfsError::PermissionDenied
    ));

    // System files (like mines.sh) still can't be deleted
    let mines_id = vfs.resolve_path(root, "mines.sh").unwrap();
    let delete_mines = vfs.delete_node(mines_id);
    assert!(delete_mines.is_err());
    assert!(matches!(
        delete_mines.unwrap_err(),
        VfsError::PermissionDenied
    ));
}

#[test]
fn test_file_deletion() {
    let blog_posts = vec![];
    let mut vfs = VirtualFilesystem::new(blog_posts);
    let root = vfs.get_root();

    // Create a user file
    let file_id = vfs
        .create_file(
            root,
            "deleteme.txt",
            FileContent::Dynamic("temporary content".to_string()),
        )
        .unwrap();

    // Verify it exists
    assert!(vfs.read_file(file_id).is_ok());

    // Delete it
    vfs.delete_node(file_id).unwrap();

    // Verify it's gone
    assert!(vfs.resolve_path(root, "/deleteme.txt").is_err());
}

#[test]
fn test_directory_deletion() {
    let blog_posts = vec![];
    let mut vfs = VirtualFilesystem::new(blog_posts);
    let root = vfs.get_root();

    // Create a user directory
    let dir_id = vfs.create_directory(root, "tempdir").unwrap();

    // Verify it exists
    assert!(vfs.resolve_path(root, "/tempdir").is_ok());

    // Delete it
    vfs.delete_node(dir_id).unwrap();

    // Verify it's gone
    assert!(vfs.resolve_path(root, "/tempdir").is_err());
}

#[test]
fn test_cannot_delete_non_empty_directory() {
    let blog_posts = vec![];
    let mut vfs = VirtualFilesystem::new(blog_posts);
    let root = vfs.get_root();

    // Create a directory with a file
    let dir_id = vfs.create_directory(root, "nonempty").unwrap();
    vfs.create_file(
        dir_id,
        "file.txt",
        FileContent::Dynamic("content".to_string()),
    )
    .unwrap();

    // Try to delete the directory (should fail)
    let result = vfs.delete_node(dir_id);
    assert!(result.is_err());
    assert!(matches!(result.unwrap_err(), VfsError::SystemError(_)));
}

#[test]
fn test_cannot_delete_system_files() {
    let blog_posts = vec![];
    let mut vfs = VirtualFilesystem::new(blog_posts);
    let root = vfs.get_root();

    // Try to delete a system file
    let mines_id = vfs.resolve_path(root, "/mines.sh").unwrap();
    let result = vfs.delete_node(mines_id);
    assert!(result.is_err());
    assert!(matches!(result.unwrap_err(), VfsError::PermissionDenied));
}

#[test]
fn test_cannot_delete_root() {
    let blog_posts = vec![];
    let mut vfs = VirtualFilesystem::new(blog_posts);
    let root = vfs.get_root();

    // Try to delete root
    let result = vfs.delete_node(root);
    assert!(result.is_err());
    assert!(matches!(result.unwrap_err(), VfsError::PermissionDenied));
}

#[test]
fn test_duplicate_name_prevention() {
    let blog_posts = vec![];
    let mut vfs = VirtualFilesystem::new(blog_posts);
    let root = vfs.get_root();

    // Create a file
    vfs.create_file(
        root,
        "duplicate.txt",
        FileContent::Dynamic("first".to_string()),
    )
    .unwrap();

    // Try to create another file with the same name
    let result = vfs.create_file(
        root,
        "duplicate.txt",
        FileContent::Dynamic("second".to_string()),
    );
    assert!(result.is_err());
    assert!(matches!(result.unwrap_err(), VfsError::AlreadyExists));

    // Same for directories
    vfs.create_directory(root, "dupdir").unwrap();
    let result = vfs.create_directory(root, "dupdir");
    assert!(result.is_err());
    assert!(matches!(result.unwrap_err(), VfsError::AlreadyExists));
}

#[test]
fn test_path_generation() {
    let blog_posts = vec!["example-post".to_string()];
    let vfs = VirtualFilesystem::new(blog_posts);
    let root = vfs.get_root();

    // Test root path
    assert_eq!(vfs.get_node_path(root), "/");

    // Test simple paths
    let blog_id = vfs.resolve_path(root, "/blog").unwrap();
    assert_eq!(vfs.get_node_path(blog_id), "/blog");

    let cv_id = vfs.resolve_path(root, "/cv").unwrap();
    assert_eq!(vfs.get_node_path(cv_id), "/cv");

    // Test nested paths
    let post_id = vfs.resolve_path(root, "/blog/example-post").unwrap();
    assert_eq!(vfs.get_node_path(post_id), "/blog/example-post");
}

#[test]
fn test_complex_path_navigation() {
    let blog_posts = vec!["post1".to_string()];
    let vfs = VirtualFilesystem::new(blog_posts);
    let root = vfs.get_root();

    // Navigate to deep path then back up
    let post_id = vfs.resolve_path(root, "/blog/post1").unwrap();
    let back_to_blog = vfs.resolve_path(post_id, "..").unwrap();
    let back_to_root = vfs.resolve_path(back_to_blog, "..").unwrap();

    assert_eq!(back_to_root, root);
    assert_eq!(vfs.get_node_path(back_to_blog), "/blog");

    // Test relative path navigation - go to blog dir, then up and over to cv
    let blog_id = vfs.resolve_path(root, "/blog").unwrap();
    let cv_via_relative = vfs.resolve_path(blog_id, "../cv").unwrap();
    assert_eq!(vfs.get_node_path(cv_via_relative), "/cv");
}

#[test]
fn test_empty_and_dot_paths() {
    let blog_posts = vec![];
    let vfs = VirtualFilesystem::new(blog_posts);
    let root = vfs.get_root();

    // Test empty path resolves to base
    assert_eq!(vfs.resolve_path(root, "").unwrap(), root);

    // Test dot path resolves to base
    assert_eq!(vfs.resolve_path(root, ".").unwrap(), root);

    // Test from subdirectory
    let blog_id = vfs.resolve_path(root, "/blog").unwrap();
    assert_eq!(vfs.resolve_path(blog_id, "").unwrap(), blog_id);
    assert_eq!(vfs.resolve_path(blog_id, ".").unwrap(), blog_id);
}

#[test]
fn test_complex_relative_paths() {
    let blog_posts = vec!["post1".to_string(), "post2".to_string()];
    let mut vfs = VirtualFilesystem::new(blog_posts);
    let root = vfs.get_root();

    // Create nested structure for testing
    let user_dir = vfs.create_directory(root, "user").unwrap();
    let projects_dir = vfs.create_directory(user_dir, "projects").unwrap();
    let deep_dir = vfs.create_directory(projects_dir, "deep").unwrap();

    // Test multiple .. segments
    let back_to_root = vfs.resolve_path(deep_dir, "../../..").unwrap();
    assert_eq!(back_to_root, root);

    // Test multiple .. with final directory
    let back_to_user = vfs.resolve_path(deep_dir, "../..").unwrap();
    assert_eq!(back_to_user, user_dir);

    // Test .. beyond root (should stay at root)
    let still_root = vfs.resolve_path(root, "../../..").unwrap();
    assert_eq!(still_root, root);

    // Test complex path with mixed . and ..
    let mixed_path = vfs
        .resolve_path(deep_dir, "./../../../user/./projects")
        .unwrap();
    assert_eq!(mixed_path, projects_dir);

    // Test relative path from deep location to system directory
    let to_blog = vfs.resolve_path(deep_dir, "../../../blog").unwrap();
    let blog_id = vfs.resolve_path(root, "/blog").unwrap();
    assert_eq!(to_blog, blog_id);

    // Test relative path with intermediate directory traversal
    let complex_nav = vfs
        .resolve_path(deep_dir, "../../projects/../projects/deep")
        .unwrap();
    assert_eq!(complex_nav, deep_dir);
}

#[test]
fn test_relative_paths_with_files() {
    let blog_posts = vec!["example-post".to_string()];
    let mut vfs = VirtualFilesystem::new(blog_posts);
    let root = vfs.get_root();

    // Create test structure
    let test_dir = vfs.create_directory(root, "test").unwrap();
    let sub_dir = vfs.create_directory(test_dir, "sub").unwrap();
    vfs.create_file(
        sub_dir,
        "file.txt",
        FileContent::Dynamic("test content".to_string()),
    )
    .unwrap();

    // Navigate to file via complex relative path
    let file_via_complex = vfs
        .resolve_path(root, "test/./sub/../sub/./file.txt")
        .unwrap();
    let content = vfs.read_file(file_via_complex).unwrap();
    assert_eq!(content, "test content");

    // Navigate from file back to root via complex path
    let back_to_root = vfs.resolve_path(file_via_complex, "../../..").unwrap();
    assert_eq!(back_to_root, root);

    // Navigate from file to system file via complex relative path
    let to_mines = vfs
        .resolve_path(file_via_complex, "../../.././mines.sh")
        .unwrap();
    let mines_content = vfs.read_file(to_mines).unwrap();
    assert!(mines_content.contains("mines"));
}

#[test]
fn test_paths_with_redundant_separators() {
    let blog_posts = vec!["post1".to_string()];
    let vfs = VirtualFilesystem::new(blog_posts);
    let root = vfs.get_root();

    // Test paths with multiple consecutive dots and slashes
    let blog_id = vfs.resolve_path(root, "/blog").unwrap();

    // These should all resolve to the same location
    let path1 = vfs.resolve_path(blog_id, "../././blog/./post1").unwrap();
    let path2 = vfs.resolve_path(blog_id, ".././blog/post1").unwrap();
    let path3 = vfs
        .resolve_path(blog_id, "././../blog/./././post1")
        .unwrap();
    let direct_path = vfs.resolve_path(root, "/blog/post1").unwrap();

    assert_eq!(path1, direct_path);
    assert_eq!(path2, direct_path);
    assert_eq!(path3, direct_path);
}

#[test]
fn test_relative_navigation_from_deep_blog_posts() {
    let blog_posts = vec!["deep-post".to_string(), "other-post".to_string()];
    let vfs = VirtualFilesystem::new(blog_posts);
    let root = vfs.get_root();

    // Verify both blog posts exist
    let deep_post = vfs.resolve_path(root, "/blog/deep-post").unwrap();
    let other_post = vfs.resolve_path(root, "/blog/other-post").unwrap();
    let nav_file = vfs.resolve_path(deep_post, "nav.rs").unwrap();

    // Navigate to CV from deep blog location using nav.rs as starting point
    // nav.rs -> .. (to post dir) -> .. (to blog dir) -> .. (to root) -> cv
    let cv_via_relative = vfs.resolve_path(nav_file, "../../../cv").unwrap();
    let cv_direct = vfs.resolve_path(root, "/cv").unwrap();
    assert_eq!(cv_via_relative, cv_direct);

    // Navigate from blog directory to other post (not from nav.rs file)
    let blog_dir = vfs.resolve_path(root, "/blog").unwrap();
    let other_via_relative = vfs.resolve_path(blog_dir, "other-post").unwrap();
    assert_eq!(other_via_relative, other_post);

    // Complex navigation: blog post -> root -> back to same blog post
    let roundtrip = vfs
        .resolve_path(nav_file, "../../.././blog/deep-post")
        .unwrap();
    assert_eq!(roundtrip, deep_post);
}

#[test]
fn test_edge_case_relative_paths() {
    let blog_posts = vec![];
    let mut vfs = VirtualFilesystem::new(blog_posts);
    let root = vfs.get_root();

    // Create nested structure for edge case testing
    let a = vfs.create_directory(root, "a").unwrap();
    let b = vfs.create_directory(a, "b").unwrap();
    let c = vfs.create_directory(b, "c").unwrap();

    // Test many consecutive dots and parent traversals
    let many_dots = vfs.resolve_path(c, "./././././.").unwrap();
    assert_eq!(many_dots, c);

    // Test excessive parent traversal (should clamp at root)
    let excessive_parents = vfs.resolve_path(c, "../../../../../../../..").unwrap();
    assert_eq!(excessive_parents, root);

    // Test mixed excessive traversal with final valid path
    let mixed_excessive = vfs.resolve_path(c, "../../../../../../../../blog").unwrap();
    let blog_direct = vfs.resolve_path(root, "/blog").unwrap();
    assert_eq!(mixed_excessive, blog_direct);

    // Test path that goes up and down multiple times
    let zigzag = vfs.resolve_path(c, "../../../a/b/../b/c/../c").unwrap();
    assert_eq!(zigzag, c);
}
