use personal_site::command::CommandRes;
use personal_site::terminal::Terminal;

// Helper function to extract stdout text from CommandRes
fn get_stdout_text(res: &CommandRes) -> Option<String> {
    match res {
        CommandRes::Output { stdout_text, .. } => stdout_text.clone(),
        _ => None,
    }
}

// Helper function to extract stderr text from CommandRes
fn get_stderr_text(res: &CommandRes) -> Option<String> {
    match res {
        CommandRes::Output { stderr_text, .. } => stderr_text.clone(),
        _ => None,
    }
}

// Helper function to check if a file exists in VFS
fn vfs_file_exists(terminal: &mut Terminal, path: &str) -> bool {
    // Create a temporary VFS command to access the filesystem
    let result = terminal.handle_command("/", &format!("cat {}", path));

    // If cat succeeds and no "Is a directory" error, it's a file
    if !result.is_error() {
        return true;
    }

    // Check if error is "Is a directory" (meaning path exists but is dir)
    if let Some(stderr) = get_stderr_text(&result) {
        if stderr.contains("Is a directory") {
            return false; // Path exists but is a directory
        }
        if stderr.contains("No such file or directory") {
            return false; // Path doesn't exist
        }
    }

    false
}

// Helper function to check if a directory exists in VFS
fn vfs_dir_exists(terminal: &mut Terminal, path: &str) -> bool {
    // Try to cd to the directory and back
    let current_path = "/"; // We'll assume we're testing from root
    let cd_result = terminal.handle_command(current_path, &format!("cd {}", path));

    match cd_result {
        CommandRes::Redirect(_) => true,
        _ => {
            // Check if it's a file by trying cat
            let cat_result = terminal.handle_command(current_path, &format!("cat {}", path));
            if let Some(stderr) = get_stderr_text(&cat_result) {
                stderr.contains("Is a directory")
            } else {
                false
            }
        }
    }
}

// Helper function to check if a specific item exists in a directory
fn vfs_contains_file(terminal: &mut Terminal, dir_path: &str, filename: &str) -> bool {
    let full_path = if dir_path == "/" {
        format!("/{}", filename)
    } else {
        format!("{}/{}", dir_path, filename)
    };
    vfs_file_exists(terminal, &full_path) || vfs_dir_exists(terminal, &full_path)
}

#[test]
fn test_cd_integration() {
    let blog_posts = vec!["test-post".to_string(), "another-post".to_string()];
    let mut terminal = Terminal::new(&blog_posts, None);

    // Test root directory contents via VFS
    assert!(vfs_dir_exists(&mut terminal, "/blog"));
    assert!(vfs_dir_exists(&mut terminal, "/cv"));
    assert!(vfs_file_exists(&mut terminal, "/mines.sh"));

    // Change to blog directory
    let cd_result = terminal.handle_command("/", "cd blog");
    if let CommandRes::Redirect(path) = cd_result {
        assert_eq!(path, "/blog");
    } else {
        panic!("cd should return a redirect");
    }

    // Verify blog directory contents by checking individual files exist
    assert!(vfs_contains_file(&mut terminal, "/blog", "test-post"));
    assert!(vfs_contains_file(&mut terminal, "/blog", "another-post"));
    assert!(vfs_contains_file(&mut terminal, "/blog", "nav.rs"));

    // Test relative navigation
    let relative_cd = terminal.handle_command("/blog", "cd ..");
    if let CommandRes::Redirect(path) = relative_cd {
        assert_eq!(path, "/");
    } else {
        panic!("cd .. should return a redirect to root");
    }

    // Test cd to specific blog post
    let post_cd = terminal.handle_command("/blog", "cd test-post");
    if let CommandRes::Redirect(path) = post_cd {
        assert_eq!(path, "/blog/test-post");
    } else {
        panic!("cd test-post should redirect");
    }
}

#[test]
fn test_path_navigation() {
    let blog_posts = vec!["my-post".to_string()];
    let mut terminal = Terminal::new(&blog_posts, None);

    // Test absolute path navigation
    let abs_cd = terminal.handle_command("/", "cd /blog/my-post");
    if let CommandRes::Redirect(path) = abs_cd {
        assert_eq!(path, "/blog/my-post");
    } else {
        panic!("absolute cd should work");
    }

    // Test .. from deep directory
    let up_cd = terminal.handle_command("/blog/my-post", "cd ../..");
    if let CommandRes::Redirect(path) = up_cd {
        assert_eq!(path, "/");
    } else {
        panic!("cd ../.. should go to root");
    }

    // Test ~ expansion
    let home_cd = terminal.handle_command("/blog", "cd ~");
    if let CommandRes::Redirect(path) = home_cd {
        assert_eq!(path, "/");
    } else {
        panic!("cd ~ should go to root");
    }

    // Test ~/path expansion
    let home_path_cd = terminal.handle_command("/blog", "cd ~/cv");
    if let CommandRes::Redirect(path) = home_path_cd {
        assert_eq!(path, "/cv");
    } else {
        panic!("cd ~/cv should work");
    }
}

#[test]
fn test_cat_command() {
    let blog_posts = vec!["test-post".to_string()];
    let mut terminal = Terminal::new(&blog_posts, None);

    // Test cat on existing file
    let cat_result = terminal.handle_command("/", "cat thanks.txt");
    assert!(!cat_result.is_error());
    let cat_output = get_stdout_text(&cat_result).unwrap_or_default();
    assert!(cat_output.contains("Thank you"));

    // Test cat on directory (should fail)
    let cat_dir = terminal.handle_command("/", "cat blog");
    assert!(cat_dir.is_error());
    let error_msg = get_stderr_text(&cat_dir).unwrap_or_default();
    assert!(error_msg.contains("Is a directory"));

    // Test cat on non-existent file
    let cat_missing = terminal.handle_command("/", "cat nonexistent.txt");
    assert!(cat_missing.is_error());
    let error_msg = get_stderr_text(&cat_missing).unwrap_or_default();
    assert!(error_msg.contains("No such file or directory"));
}

#[test]
fn test_file_creation_deletion() {
    let blog_posts = vec!["test-post".to_string()];
    let mut terminal = Terminal::new(&blog_posts, None);

    // Create a file with touch
    let touch_result = terminal.handle_command("/", "touch newfile.txt");
    assert!(!touch_result.is_error());

    // Verify file exists via VFS
    assert!(vfs_file_exists(&mut terminal, "/newfile.txt"));

    // Remove the file
    let rm_result = terminal.handle_command("/", "rm newfile.txt");
    assert!(!rm_result.is_error());

    // Verify file is gone via VFS
    assert!(!vfs_file_exists(&mut terminal, "/newfile.txt"));
}

#[test]
fn test_directory_operations() {
    let blog_posts = vec!["test-post".to_string()];
    let mut terminal = Terminal::new(&blog_posts, None);

    // Create a directory
    let mkdir_result = terminal.handle_command("/", "mkdir testdir");
    assert!(!mkdir_result.is_error());

    // Verify directory exists via VFS
    assert!(vfs_dir_exists(&mut terminal, "/testdir"));

    // Create a file in the directory
    let touch_in_dir = terminal.handle_command("/", "touch testdir/file.txt");
    assert!(!touch_in_dir.is_error());

    // Verify file exists in directory via VFS
    assert!(vfs_file_exists(&mut terminal, "/testdir/file.txt"));
    assert!(vfs_contains_file(&mut terminal, "/testdir", "file.txt"));

    // Try to remove non-empty directory without -r (should fail)
    let rm_fail = terminal.handle_command("/", "rm testdir");
    assert!(rm_fail.is_error());
    let error_msg = get_stderr_text(&rm_fail).unwrap_or_default();
    assert!(error_msg.contains("Is a directory"));

    // Remove directory with -r
    let rm_recursive = terminal.handle_command("/", "rm -r testdir");
    assert!(!rm_recursive.is_error());

    // Verify directory is gone via VFS
    assert!(!vfs_dir_exists(&mut terminal, "/testdir"));
}

#[test]
fn test_cp_mv_operations() {
    let blog_posts = vec!["test-post".to_string()];
    let mut terminal = Terminal::new(&blog_posts, None);

    // Create a test file
    terminal.handle_command("/", "touch original.txt");
    assert!(vfs_file_exists(&mut terminal, "/original.txt"));

    // Copy the file
    let cp_result = terminal.handle_command("/", "cp original.txt copy.txt");
    assert!(!cp_result.is_error());

    // Verify both files exist via VFS
    assert!(vfs_file_exists(&mut terminal, "/original.txt"));
    assert!(vfs_file_exists(&mut terminal, "/copy.txt"));

    // Move the copy
    let mv_result = terminal.handle_command("/", "mv copy.txt renamed.txt");
    assert!(!mv_result.is_error());

    // Verify move worked via VFS
    assert!(vfs_file_exists(&mut terminal, "/original.txt"));
    assert!(!vfs_file_exists(&mut terminal, "/copy.txt"));
    assert!(vfs_file_exists(&mut terminal, "/renamed.txt"));

    // Test directory copy
    terminal.handle_command("/", "mkdir sourcedir");
    terminal.handle_command("/", "touch sourcedir/file1.txt");
    terminal.handle_command("/", "touch sourcedir/file2.txt");

    // Verify source directory setup via VFS
    assert!(vfs_dir_exists(&mut terminal, "/sourcedir"));
    assert!(vfs_file_exists(&mut terminal, "/sourcedir/file1.txt"));
    assert!(vfs_file_exists(&mut terminal, "/sourcedir/file2.txt"));

    let cp_dir_result = terminal.handle_command("/", "cp -r sourcedir destdir");
    assert!(!cp_dir_result.is_error());

    // Verify directory was copied via VFS
    assert!(vfs_dir_exists(&mut terminal, "/destdir"));
    assert!(vfs_file_exists(&mut terminal, "/destdir/file1.txt"));
    assert!(vfs_file_exists(&mut terminal, "/destdir/file2.txt"));
    assert!(vfs_contains_file(&mut terminal, "/destdir", "file1.txt"));
    assert!(vfs_contains_file(&mut terminal, "/destdir", "file2.txt"));
}

#[test]
fn test_permission_errors() {
    let blog_posts = vec!["test-post".to_string()];
    let mut terminal = Terminal::new(&blog_posts, None);

    // Verify system file exists first
    assert!(vfs_file_exists(&mut terminal, "/mines.sh"));

    // Try to remove system file (should fail)
    let rm_system = terminal.handle_command("/", "rm mines.sh");
    assert!(rm_system.is_error());
    let error_msg = get_stderr_text(&rm_system).unwrap_or_default();
    assert!(error_msg.contains("Permission denied"));

    // Verify system file still exists after failed removal
    assert!(vfs_file_exists(&mut terminal, "/mines.sh"));

    // Try to move system directory (should fail)
    let mv_system = terminal.handle_command("/", "mv blog renamed_blog");
    assert!(mv_system.is_error());
    let mv_error = get_stderr_text(&mv_system).unwrap_or_default();
    assert!(mv_error.contains("Permission denied"));

    // Verify blog directory still exists at original location
    assert!(vfs_dir_exists(&mut terminal, "/blog"));
    assert!(!vfs_dir_exists(&mut terminal, "/renamed_blog"));

    // We can create files in immutable directories
    let touch_in_blog = terminal.handle_command("/", "touch blog/userfile.txt");
    if touch_in_blog.is_error() {
        let error = get_stderr_text(&touch_in_blog).unwrap_or_default();
        panic!("touch in blog failed with error: {}", error);
    }

    // Verify the file was created
    assert!(vfs_file_exists(&mut terminal, "/blog/userfile.txt"));

    // But we can't delete the directory itself
    let rm_blog = terminal.handle_command("/", "rm -r blog");
    assert!(rm_blog.is_error());

    // Verify blog directory still exists
    assert!(vfs_dir_exists(&mut terminal, "/blog"));
}

#[test]
fn test_ls_options() {
    let blog_posts = vec!["test-post".to_string()];
    let mut terminal = Terminal::new(&blog_posts, None);

    // Test that hidden files exist in VFS
    assert!(vfs_file_exists(&mut terminal, "/.zshrc"));

    // Test ls -a functionality (we just verify command doesn't error)
    let ls_all = terminal.handle_command("/", "ls -a");
    assert!(!ls_all.is_error());

    // Test ls without -a
    let ls_normal = terminal.handle_command("/", "ls");
    assert!(!ls_normal.is_error());

    // Verify contents of blog and cv directories via individual file checks
    assert!(vfs_contains_file(&mut terminal, "/blog", "test-post"));
    assert!(vfs_contains_file(&mut terminal, "/blog", "nav.rs"));
    assert!(vfs_contains_file(&mut terminal, "/cv", "nav.rs"));

    // Test ls with multiple targets
    let ls_multi = terminal.handle_command("/", "ls blog cv");
    assert!(!ls_multi.is_error());
}

#[test]
fn test_command_errors() {
    let blog_posts = vec!["test-post".to_string()];
    let mut terminal = Terminal::new(&blog_posts, None);

    // Test invalid cd path
    let cd_invalid = terminal.handle_command("/", "cd nonexistent");
    assert!(cd_invalid.is_error());
    let cd_error = get_stderr_text(&cd_invalid).unwrap_or_default();
    assert!(cd_error.contains("no such file or directory"));

    // Test cd to file
    let cd_file = terminal.handle_command("/", "cd mines.sh");
    assert!(cd_file.is_error());
    let cd_file_error = get_stderr_text(&cd_file).unwrap_or_default();
    assert!(cd_file_error.contains("not a directory"));

    // Test touch with no arguments
    let touch_no_args = terminal.handle_command("/", "touch");
    assert!(touch_no_args.is_error());
    let touch_error = get_stderr_text(&touch_no_args).unwrap_or_default();
    assert!(touch_error.contains("missing file operand"));

    // Test cp with missing destination
    let cp_no_dest = terminal.handle_command("/", "cp file.txt");
    assert!(cp_no_dest.is_error());
    let cp_error = get_stderr_text(&cp_no_dest).unwrap_or_default();
    assert!(cp_error.contains("missing destination"));
}

#[test]
fn test_which_command() {
    let blog_posts = vec!["test-post".to_string()];
    let mut terminal = Terminal::new(&blog_posts, None);

    // Test which for builtin command
    let which_cd = terminal.handle_command("/", "which cd");
    assert!(!which_cd.is_error());
    let cd_output = get_stdout_text(&which_cd).unwrap_or_default();
    assert!(cd_output.contains("shell builtin"));

    // Test which for external command
    let which_ls = terminal.handle_command("/", "which ls");
    assert!(!which_ls.is_error());
    let ls_output = get_stdout_text(&which_ls).unwrap_or_default();
    assert!(ls_output.contains("/bin/ls"));

    // Test which for alias
    let which_ll = terminal.handle_command("/", "which ll");
    assert!(!which_ll.is_error());
    let ll_output = get_stdout_text(&which_ll).unwrap_or_default();
    assert!(ll_output.contains("aliased to"));

    // Test which for non-existent command
    let which_fake = terminal.handle_command("/", "which fakecmd");
    assert!(which_fake.is_error());
    let fake_output = get_stdout_text(&which_fake).unwrap_or_default();
    assert!(fake_output.contains("not found"));
}

#[test]
fn test_echo_pwd_commands() {
    let blog_posts = vec!["test-post".to_string()];
    let mut terminal = Terminal::new(&blog_posts, None);

    // Test pwd at root
    let pwd_root = terminal.handle_command("/", "pwd");
    assert!(!pwd_root.is_error());
    let pwd_output = get_stdout_text(&pwd_root).unwrap_or_default();
    assert_eq!(pwd_output.trim(), "/");

    // Test pwd in subdirectory
    let pwd_blog = terminal.handle_command("/blog", "pwd");
    assert!(!pwd_blog.is_error());
    let pwd_blog_output = get_stdout_text(&pwd_blog).unwrap_or_default();
    assert_eq!(pwd_blog_output.trim(), "/blog");

    // Test echo
    let echo_result = terminal.handle_command("/", "echo hello world");
    assert!(!echo_result.is_error());
    let echo_output = get_stdout_text(&echo_result).unwrap_or_default();
    assert_eq!(echo_output.trim(), "hello world");

    // Test echo with no args
    let echo_empty = terminal.handle_command("/", "echo");
    assert!(!echo_empty.is_error());
    let empty_output = get_stdout_text(&echo_empty).unwrap_or_default();
    assert_eq!(empty_output.trim(), "");
}

#[test]
fn test_cp_mv_basic_functionality() {
    let blog_posts = vec!["hello_world".to_string(), "rust_tips".to_string()];
    let mut terminal = Terminal::new(&blog_posts, None);

    // Test touch to create a file
    let touch_result = terminal.handle_command("/", "touch testfile.txt");
    assert!(!touch_result.is_error());
    assert!(vfs_file_exists(&mut terminal, "/testfile.txt"));

    // Test cp to copy the file
    let cp_result = terminal.handle_command("/", "cp testfile.txt testfile_copy.txt");
    assert!(!cp_result.is_error());

    // Verify both files exist via VFS
    assert!(vfs_file_exists(&mut terminal, "/testfile.txt"));
    assert!(vfs_file_exists(&mut terminal, "/testfile_copy.txt"));

    // Test mv to rename a file
    let mv_result = terminal.handle_command("/", "mv testfile_copy.txt renamed_file.txt");
    assert!(!mv_result.is_error());

    // Verify move worked via VFS
    assert!(vfs_file_exists(&mut terminal, "/testfile.txt")); // Original should still exist
    assert!(!vfs_file_exists(&mut terminal, "/testfile_copy.txt")); // Copy should be gone
    assert!(vfs_file_exists(&mut terminal, "/renamed_file.txt")); // New name should exist

    // Test mkdir and cp with directories
    let mkdir_result = terminal.handle_command("/", "mkdir testdir");
    assert!(!mkdir_result.is_error());
    assert!(vfs_dir_exists(&mut terminal, "/testdir"));

    let cp_to_dir_result = terminal.handle_command("/", "cp testfile.txt testdir/");
    assert!(!cp_to_dir_result.is_error());
    assert!(vfs_file_exists(&mut terminal, "/testdir/testfile.txt"));

    // Test recursive directory copy
    let cp_recursive_result = terminal.handle_command("/", "cp -r testdir testdir_copy");
    assert!(!cp_recursive_result.is_error());
    assert!(vfs_dir_exists(&mut terminal, "/testdir_copy"));
    assert!(vfs_file_exists(&mut terminal, "/testdir_copy/testfile.txt"));
}

#[test]
fn test_cp_file_to_file_happy_path() {
    let blog_posts = vec![];
    let mut terminal = Terminal::new(&blog_posts, None);

    // Create source file with content
    terminal.handle_command("/", "touch source.txt");
    assert!(vfs_file_exists(&mut terminal, "/source.txt"));

    // Copy file to new name
    let cp_result = terminal.handle_command("/", "cp source.txt destination.txt");
    assert!(!cp_result.is_error());

    // Verify both files exist
    assert!(vfs_file_exists(&mut terminal, "/source.txt"));
    assert!(vfs_file_exists(&mut terminal, "/destination.txt"));

    // Verify we can read both files
    let cat_source = terminal.handle_command("/", "cat source.txt");
    assert!(!cat_source.is_error());
    let cat_dest = terminal.handle_command("/", "cat destination.txt");
    assert!(!cat_dest.is_error());
}

#[test]
fn test_cp_file_to_directory_happy_path() {
    let blog_posts = vec![];
    let mut terminal = Terminal::new(&blog_posts, None);

    // Create source file and target directory
    terminal.handle_command("/", "touch file.txt");
    terminal.handle_command("/", "mkdir targetdir");
    assert!(vfs_file_exists(&mut terminal, "/file.txt"));
    assert!(vfs_dir_exists(&mut terminal, "/targetdir"));

    // Copy file to directory
    let cp_result = terminal.handle_command("/", "cp file.txt targetdir/");
    assert!(!cp_result.is_error());

    // Verify original file still exists and copy exists in target directory
    assert!(vfs_file_exists(&mut terminal, "/file.txt"));
    assert!(vfs_file_exists(&mut terminal, "/targetdir/file.txt"));
}

#[test]
fn test_cp_directory_recursive_happy_path() {
    let blog_posts = vec![];
    let mut terminal = Terminal::new(&blog_posts, None);

    // Create source directory structure
    terminal.handle_command("/", "mkdir sourcedir");
    terminal.handle_command("/", "touch sourcedir/file1.txt");
    terminal.handle_command("/", "touch sourcedir/file2.txt");
    terminal.handle_command("/", "mkdir sourcedir/subdir");
    terminal.handle_command("/", "touch sourcedir/subdir/nested.txt");

    // Verify source structure
    assert!(vfs_dir_exists(&mut terminal, "/sourcedir"));
    assert!(vfs_file_exists(&mut terminal, "/sourcedir/file1.txt"));
    assert!(vfs_file_exists(&mut terminal, "/sourcedir/file2.txt"));
    assert!(vfs_dir_exists(&mut terminal, "/sourcedir/subdir"));
    assert!(vfs_file_exists(
        &mut terminal,
        "/sourcedir/subdir/nested.txt"
    ));

    // Recursively copy directory
    let cp_result = terminal.handle_command("/", "cp -r sourcedir targetdir");
    assert!(!cp_result.is_error());

    // Verify original structure still exists
    assert!(vfs_dir_exists(&mut terminal, "/sourcedir"));
    assert!(vfs_file_exists(&mut terminal, "/sourcedir/file1.txt"));
    assert!(vfs_file_exists(&mut terminal, "/sourcedir/file2.txt"));
    assert!(vfs_dir_exists(&mut terminal, "/sourcedir/subdir"));
    assert!(vfs_file_exists(
        &mut terminal,
        "/sourcedir/subdir/nested.txt"
    ));

    // Verify copied structure exists
    assert!(vfs_dir_exists(&mut terminal, "/targetdir"));
    assert!(vfs_file_exists(&mut terminal, "/targetdir/file1.txt"));
    assert!(vfs_file_exists(&mut terminal, "/targetdir/file2.txt"));
    assert!(vfs_dir_exists(&mut terminal, "/targetdir/subdir"));
    assert!(vfs_file_exists(
        &mut terminal,
        "/targetdir/subdir/nested.txt"
    ));
}

#[test]
fn test_mv_file_rename_happy_path() {
    let blog_posts = vec![];
    let mut terminal = Terminal::new(&blog_posts, None);

    // Create source file
    terminal.handle_command("/", "touch original.txt");
    assert!(vfs_file_exists(&mut terminal, "/original.txt"));

    // Move/rename file
    let mv_result = terminal.handle_command("/", "mv original.txt renamed.txt");
    assert!(!mv_result.is_error());

    // Verify original is gone and new name exists
    assert!(!vfs_file_exists(&mut terminal, "/original.txt"));
    assert!(vfs_file_exists(&mut terminal, "/renamed.txt"));

    // Verify we can read the renamed file
    let cat_result = terminal.handle_command("/", "cat renamed.txt");
    assert!(!cat_result.is_error());
}

#[test]
fn test_mv_file_to_directory_happy_path() {
    let blog_posts = vec![];
    let mut terminal = Terminal::new(&blog_posts, None);

    // Create source file and target directory
    terminal.handle_command("/", "touch moveme.txt");
    terminal.handle_command("/", "mkdir targetdir");
    assert!(vfs_file_exists(&mut terminal, "/moveme.txt"));
    assert!(vfs_dir_exists(&mut terminal, "/targetdir"));

    // Move file to directory
    let mv_result = terminal.handle_command("/", "mv moveme.txt targetdir/");
    assert!(!mv_result.is_error());

    // Verify original is gone and file exists in target directory
    assert!(!vfs_file_exists(&mut terminal, "/moveme.txt"));
    assert!(vfs_file_exists(&mut terminal, "/targetdir/moveme.txt"));
}

#[test]
fn test_mv_directory_rename_happy_path() {
    let blog_posts = vec![];
    let mut terminal = Terminal::new(&blog_posts, None);

    // Create source directory with contents
    terminal.handle_command("/", "mkdir olddir");
    terminal.handle_command("/", "touch olddir/file.txt");
    assert!(vfs_dir_exists(&mut terminal, "/olddir"));
    assert!(vfs_file_exists(&mut terminal, "/olddir/file.txt"));

    // Move/rename directory
    let mv_result = terminal.handle_command("/", "mv olddir newdir");
    assert!(!mv_result.is_error());

    // Verify original is gone and new name exists with contents
    assert!(!vfs_dir_exists(&mut terminal, "/olddir"));
    assert!(vfs_dir_exists(&mut terminal, "/newdir"));
    assert!(vfs_file_exists(&mut terminal, "/newdir/file.txt"));
}

#[test]
fn test_cp_mv_error_cases() {
    let blog_posts = vec!["hello_world".to_string()];
    let mut terminal = Terminal::new(&blog_posts, None);

    // Test cp with missing source
    let cp_missing_result = terminal.handle_command("/", "cp nonexistent.txt copy.txt");
    assert!(cp_missing_result.is_error());
    let error_msg = get_stderr_text(&cp_missing_result).unwrap_or_default();
    assert!(error_msg.contains("No such file or directory"));

    // Test cp directory without -r flag
    let cp_dir_result = terminal.handle_command("/", "cp blog copy_blog");
    assert!(cp_dir_result.is_error());
    let error_msg = get_stderr_text(&cp_dir_result).unwrap_or_default();
    assert!(
        error_msg.contains("Is a directory")
            || error_msg.contains("-r not specified")
            || error_msg.contains("omitting directory")
    );

    // Test mv with missing source
    let mv_missing_result = terminal.handle_command("/", "mv nonexistent.txt moved.txt");
    assert!(mv_missing_result.is_error());
    let error_msg = get_stderr_text(&mv_missing_result).unwrap_or_default();
    assert!(error_msg.contains("No such file or directory"));

    // Test mv system directory (should fail due to immutable permissions)
    let mv_system_result = terminal.handle_command("/", "mv blog moved_blog");
    assert!(mv_system_result.is_error());
    let error_msg = get_stderr_text(&mv_system_result).unwrap_or_default();
    assert!(error_msg.contains("Permission denied"));

    // Verify system directory still exists after failed move
    assert!(vfs_dir_exists(&mut terminal, "/blog"));
    assert!(!vfs_dir_exists(&mut terminal, "/moved_blog"));

    // Test cp with missing destination arguments
    let cp_no_dest = terminal.handle_command("/", "cp onlyarg");
    assert!(cp_no_dest.is_error());
    let error_msg = get_stderr_text(&cp_no_dest).unwrap_or_default();
    assert!(error_msg.contains("missing destination"));

    // Test mv with missing destination arguments
    let mv_no_dest = terminal.handle_command("/", "mv onlyarg");
    assert!(mv_no_dest.is_error());
    let error_msg = get_stderr_text(&mv_no_dest).unwrap_or_default();
    assert!(error_msg.contains("missing destination") || error_msg.contains("missing operand"));
}

#[test]
fn test_cp_mv_complex_paths_happy_path() {
    let blog_posts = vec![];
    let mut terminal = Terminal::new(&blog_posts, None);

    // Create nested directory structure
    terminal.handle_command("/", "mkdir src");
    terminal.handle_command("/", "mkdir src/utils");
    terminal.handle_command("/", "mkdir dest");
    terminal.handle_command("/", "mkdir dest/backup");
    terminal.handle_command("/", "touch src/main.rs");
    terminal.handle_command("/", "touch src/utils/helper.rs");

    // Verify setup
    assert!(vfs_dir_exists(&mut terminal, "/src"));
    assert!(vfs_dir_exists(&mut terminal, "/src/utils"));
    assert!(vfs_dir_exists(&mut terminal, "/dest"));
    assert!(vfs_dir_exists(&mut terminal, "/dest/backup"));
    assert!(vfs_file_exists(&mut terminal, "/src/main.rs"));
    assert!(vfs_file_exists(&mut terminal, "/src/utils/helper.rs"));

    // Copy file with relative path
    let cp_result = terminal.handle_command("/src", "cp main.rs ../dest/");
    assert!(!cp_result.is_error());
    assert!(vfs_file_exists(&mut terminal, "/dest/main.rs"));
    assert!(vfs_file_exists(&mut terminal, "/src/main.rs")); // Original should remain

    // Move file from nested location
    let mv_result = terminal.handle_command("/src/utils", "mv helper.rs ../../dest/backup/");
    assert!(!mv_result.is_error());
    assert!(!vfs_file_exists(&mut terminal, "/src/utils/helper.rs")); // Original should be gone
    assert!(vfs_file_exists(&mut terminal, "/dest/backup/helper.rs"));

    // Copy entire directory structure
    let cp_recursive = terminal.handle_command("/", "cp -r src src_backup");
    assert!(!cp_recursive.is_error());
    assert!(vfs_dir_exists(&mut terminal, "/src_backup"));
    assert!(vfs_dir_exists(&mut terminal, "/src_backup/utils"));
    assert!(vfs_file_exists(&mut terminal, "/src_backup/main.rs"));
    // Note: helper.rs was moved out, so it shouldn't be in the backup
}

#[test]
fn test_cp_mv_overwrite_behavior() {
    let blog_posts = vec![];
    let mut terminal = Terminal::new(&blog_posts, None);

    // Create a file and copy it to a new location
    terminal.handle_command("/", "touch file1.txt");
    assert!(vfs_file_exists(&mut terminal, "/file1.txt"));

    // Copy file1 to a new name (this should work)
    let cp_result = terminal.handle_command("/", "cp file1.txt file2.txt");
    assert!(!cp_result.is_error());

    // Both files should exist
    assert!(vfs_file_exists(&mut terminal, "/file1.txt"));
    assert!(vfs_file_exists(&mut terminal, "/file2.txt"));

    // Try to copy file1 to file2 again (should fail - file exists)
    let cp_overwrite = terminal.handle_command("/", "cp file1.txt file2.txt");
    assert!(cp_overwrite.is_error());
    let error_msg = get_stderr_text(&cp_overwrite).unwrap_or_default();
    assert!(error_msg.contains("File exists"));

    // Create a third file and move it to overwrite file1 (mv should work)
    terminal.handle_command("/", "touch file3.txt");
    assert!(vfs_file_exists(&mut terminal, "/file3.txt"));

    let mv_result = terminal.handle_command("/", "mv file3.txt file1.txt");
    assert!(!mv_result.is_error());

    // file3 should be gone, file1 should still exist (overwritten by mv)
    assert!(!vfs_file_exists(&mut terminal, "/file3.txt"));
    assert!(vfs_file_exists(&mut terminal, "/file1.txt"));
}
